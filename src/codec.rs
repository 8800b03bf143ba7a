//! Binary encoding of the control messages: fixed-width little-endian
//! integers, length-prefixed UTF-8 strings, one-byte option tags and
//! four-byte variant tags.
use vstd::prelude::*;
use vstd::utf8::*;
use crate::wire::{
    JobMsg, JobMsgView, JobStatus, JobStatusMsg, JobStatusMsgView, JobStatusView, Message, MessageView,
    TranscodeProgress, TranscodeProgressView, WorkerInfo, WorkerInfoView, opt_str_view, pairs_view,
};

verus! {

/// 256 to the power `n`.
pub open spec fn pow256(n: nat) -> nat
    decreases n,
{
    if n == 0 {
        1
    } else {
        256 * pow256((n - 1) as nat)
    }
}

/// The `n` little-endian bytes of `x` (higher bytes beyond `n` are dropped).
pub open spec fn le_bytes(x: nat, n: nat) -> Seq<u8>
    decreases n,
{
    if n == 0 {
        Seq::empty()
    } else {
        seq![(x % 256) as u8] + le_bytes(x / 256, (n - 1) as nat)
    }
}

/// The number that the little-endian bytes `b` stand for.
pub open spec fn le_value(b: Seq<u8>) -> nat
    decreases b.len(),
{
    if b.len() == 0 {
        0
    } else {
        b[0] as nat + 256 * le_value(b.drop_first())
    }
}

pub proof fn lemma_le_bytes_len(x: nat, n: nat)
    ensures
        le_bytes(x, n).len() == n,
    decreases n,
{
    if n > 0 {
        lemma_le_bytes_len(x / 256, (n - 1) as nat);
    }
}

pub proof fn lemma_le_value_bound(b: Seq<u8>)
    ensures
        le_value(b) < pow256(b.len()),
    decreases b.len(),
{
    if b.len() > 0 {
        lemma_le_value_bound(b.drop_first());
        let v = le_value(b.drop_first());
        let p = pow256(b.drop_first().len());
        assert(b[0] as nat + 256 * v < 256 * p) by (nonlinear_arith)
            requires
                v < p,
                b[0] < 256,
        ;
    }
}

pub proof fn lemma_le_round_trip(x: nat, n: nat)
    requires
        x < pow256(n),
    ensures
        le_value(le_bytes(x, n)) == x,
    decreases n,
{
    if n > 0 {
        let p = pow256((n - 1) as nat);
        assert(x / 256 < p) by (nonlinear_arith)
            requires
                x < 256 * p,
        ;
        lemma_le_round_trip(x / 256, (n - 1) as nat);
        let b = le_bytes(x, n);
        assert(b.drop_first() =~= le_bytes(x / 256, (n - 1) as nat));
    }
}

/// Reads `n` little-endian bytes: the number and what follows them.
pub open spec fn parse_uint(b: Seq<u8>, n: nat) -> Option<(nat, Seq<u8>)> {
    if b.len() < n {
        None
    } else {
        Some((le_value(b.take(n as int)), b.skip(n as int)))
    }
}

pub proof fn lemma_parse_uint(x: nat, n: nat, rest: Seq<u8>)
    requires
        x < pow256(n),
    ensures
        parse_uint(le_bytes(x, n) + rest, n) == Some((x, rest)),
{
    lemma_le_bytes_len(x, n);
    lemma_le_round_trip(x, n);
    let b = le_bytes(x, n) + rest;
    assert(b.take(n as int) =~= le_bytes(x, n));
    assert(b.skip(n as int) =~= rest);
}

/// Appends the `n` little-endian bytes of `x`.
fn put_uint(out: &mut Vec<u8>, x: u128, n: usize)
    requires
        n <= 16,
    ensures
        final(out)@ == old(out)@ + le_bytes(x as nat, n as nat),
{
    let ghost start = old(out)@;
    let mut cur: u128 = x;
    let mut i: usize = 0;
    while i < n
        invariant
            i <= n,
            out@ + le_bytes(cur as nat, (n - i) as nat) == start + le_bytes(x as nat, n as nat),
        decreases n - i,
    {
        let ghost before = out@;
        out.push((cur % 256) as u8);
        proof {
            let k = (n - i) as nat;
            assert(le_bytes(cur as nat, k) == seq![((cur as nat) % 256) as u8] + le_bytes(
                (cur as nat) / 256,
                (k - 1) as nat,
            ));
            assert(out@ + le_bytes((cur / 256) as nat, (k - 1) as nat) =~= before + le_bytes(
                cur as nat,
                k,
            ));
        }
        cur = cur / 256;
        i = i + 1;
    }
    assert(le_bytes(cur as nat, 0) =~= Seq::<u8>::empty());
    assert(out@ =~= start + le_bytes(x as nat, n as nat));
}

/// Reads `n` little-endian bytes at `pos`.
fn get_uint(b: &[u8], pos: usize, n: usize) -> (r: Option<(u128, usize)>)
    requires
        pos <= b@.len(),
        n <= 16,
    ensures
        match r {
            None => parse_uint(b@.skip(pos as int), n as nat) is None,
            Some((v, p)) => pos <= p <= b@.len() && (v as nat) < pow256(n as nat) && parse_uint(
                b@.skip(pos as int),
                n as nat,
            ) == Some((v as nat, b@.skip(p as int))),
        },
{
    if b.len() - pos < n {
        return None;
    }
    let mut acc: u128 = 0;
    let mut i: usize = n;
    while i > 0
        invariant
            i <= n <= 16,
            pos + n <= b.len(),
            acc as nat == le_value(b@.subrange(pos + i, pos + n)),
        decreases i,
    {
        proof {
            lemma_le_value_bound(b@.subrange(pos + i, pos + n));
            pow256_mono((n - i) as nat, 15);
            lemma_pow256_16();
        }
        let byte = b[pos + i - 1];
        proof {
            let s = b@.subrange(pos + i - 1, pos + n);
            assert(s.drop_first() =~= b@.subrange(pos + i, pos + n));
            assert(acc * 256 + byte < 0x1_0000_0000_0000_0000_0000_0000_0000_0000) by (nonlinear_arith)
                requires
                    acc < pow256(15),
                    pow256(15) * 256 == 0x1_0000_0000_0000_0000_0000_0000_0000_0000,
                    byte < 256,
            ;
        }
        acc = acc * 256 + byte as u128;
        i = i - 1;
    }
    assert(b@.subrange(pos as int, pos + n) =~= b@.skip(pos as int).take(n as int));
    proof {
        lemma_le_value_bound(b@.subrange(pos as int, pos + n));
    }
    assert(b@.skip(pos as int).skip(n as int) =~= b@.skip(pos + n));
    Some((acc, pos + n))
}

proof fn lemma_pow256_16()
    ensures
        pow256(15) * 256 == 0x1_0000_0000_0000_0000_0000_0000_0000_0000,
{
    reveal_with_fuel(pow256, 17);
}

proof fn pow256_mono(a: nat, b: nat)
    requires
        a <= b,
    ensures
        pow256(a) <= pow256(b),
    decreases b,
{
    if a < b {
        pow256_mono(a, (b - 1) as nat);
    }
}


/* Spec encoders, over the views */

pub open spec fn enc_str(s: Seq<char>) -> Seq<u8> {
    le_bytes(encode_utf8(s).len(), 8) + encode_utf8(s)
}

pub open spec fn enc_opt_u64(o: Option<u64>) -> Seq<u8> {
    match o {
        None => seq![0u8],
        Some(x) => seq![1u8] + le_bytes(x as nat, 8),
    }
}

pub open spec fn enc_opt_str(o: Option<Seq<char>>) -> Seq<u8> {
    match o {
        None => seq![0u8],
        Some(s) => seq![1u8] + enc_str(s),
    }
}

pub open spec fn enc_pairs(v: Seq<(Seq<char>, Seq<char>)>) -> Seq<u8>
    decreases v.len(),
{
    if v.len() == 0 {
        Seq::empty()
    } else {
        enc_str(v[0].0) + enc_str(v[0].1) + enc_pairs(v.drop_first())
    }
}

pub open spec fn enc_vars(v: Seq<(Seq<char>, Seq<char>)>) -> Seq<u8> {
    le_bytes(v.len(), 8) + enc_pairs(v)
}

pub open spec fn enc_worker_info(w: WorkerInfoView) -> Seq<u8> {
    enc_str(w.identifier) + le_bytes(w.simultaneous_jobs as nat, 1) + enc_str(w.sw_version)
}

pub open spec fn enc_job_msg(j: JobMsgView) -> Seq<u8> {
    le_bytes(j.job_id as nat, 16) + enc_str(j.script) + enc_vars(j.vars) + enc_str(j.file)
        + enc_str(j.library_root) + enc_str(j.dst_dir)
}

pub open spec fn enc_progress(p: TranscodeProgressView) -> Seq<u8> {
    enc_opt_u64(p.frame) + enc_opt_u64(p.fps) + enc_opt_u64(p.cur_time_us) + enc_opt_u64(
        p.percentage,
    ) + enc_opt_u64(p.eta_us) + enc_opt_str(p.bitrate) + enc_opt_u64(p.speed_milli)
}

/// The four-byte variant tag.
pub open spec fn enc_tag(t: nat) -> Seq<u8> {
    le_bytes(t, 4)
}

pub open spec fn enc_status(s: JobStatusView) -> Seq<u8> {
    match s {
        JobStatusView::Ack => enc_tag(0),
        JobStatusView::Declined(r) => enc_tag(1) + enc_str(r),
        JobStatusView::Progress(p) => enc_tag(2) + enc_progress(p),
        JobStatusView::Copying => enc_tag(3),
        JobStatusView::Milestone(m) => enc_tag(4) + enc_str(m),
        JobStatusView::Log(l) => enc_tag(5) + enc_str(l),
        JobStatusView::Error(e) => enc_tag(6) + enc_str(e),
        JobStatusView::Done { file } => enc_tag(7) + enc_opt_str(file),
    }
}

pub open spec fn enc_status_msg(m: JobStatusMsgView) -> Seq<u8> {
    le_bytes(m.timestamp as nat, 8) + le_bytes(m.job_id as nat, 16) + enc_status(m.status)
}

/// The bytes of a message on the wire.
pub open spec fn enc_message(m: MessageView) -> Seq<u8> {
    match m {
        MessageView::Hello(w) => enc_tag(0) + enc_worker_info(w),
        MessageView::HelloAck => enc_tag(1),
        MessageView::CancelJobs => enc_tag(2),
        MessageView::Ping => enc_tag(3),
        MessageView::Pong => enc_tag(4),
        MessageView::Job(j) => enc_tag(5) + enc_job_msg(j),
        MessageView::JobStatus(s) => enc_tag(6) + enc_status_msg(s),
        MessageView::Bye => enc_tag(7),
    }
}

/* Size limits of the format: every length fits in eight bytes */

pub open spec fn str_fits(s: Seq<char>) -> bool {
    encode_utf8(s).len() < pow256(8)
}

pub open spec fn opt_str_fits(o: Option<Seq<char>>) -> bool {
    match o {
        None => true,
        Some(s) => str_fits(s),
    }
}

pub open spec fn vars_fit(v: Seq<(Seq<char>, Seq<char>)>) -> bool {
    &&& v.len() < pow256(8)
    &&& forall|i: int| 0 <= i < v.len() ==> str_fits(#[trigger] v[i].0) && str_fits(v[i].1)
}

pub open spec fn status_fits(s: JobStatusView) -> bool {
    match s {
        JobStatusView::Declined(r) => str_fits(r),
        JobStatusView::Progress(p) => opt_str_fits(p.bitrate),
        JobStatusView::Milestone(m) => str_fits(m),
        JobStatusView::Log(l) => str_fits(l),
        JobStatusView::Error(e) => str_fits(e),
        JobStatusView::Done { file } => opt_str_fits(file),
        _ => true,
    }
}

/// Every length in the message can be written in the format.
pub open spec fn message_fits(m: MessageView) -> bool {
    match m {
        MessageView::Hello(w) => str_fits(w.identifier) && str_fits(w.sw_version),
        MessageView::Job(j) => str_fits(j.script) && vars_fit(j.vars) && str_fits(j.file)
            && str_fits(j.library_root) && str_fits(j.dst_dir),
        MessageView::JobStatus(s) => status_fits(s.status),
        _ => true,
    }
}

/* Spec parsers: the value read and the bytes that follow it */

pub open spec fn parse_str(b: Seq<u8>) -> Option<(Seq<char>, Seq<u8>)> {
    match parse_uint(b, 8) {
        None => None,
        Some((n, r)) => if n <= r.len() && valid_utf8(r.take(n as int)) {
            Some((decode_utf8(r.take(n as int)), r.skip(n as int)))
        } else {
            None
        },
    }
}

pub open spec fn parse_opt_u64(b: Seq<u8>) -> Option<(Option<u64>, Seq<u8>)> {
    if b.len() == 0 {
        None
    } else if b[0] == 0 {
        Some((None, b.drop_first()))
    } else if b[0] == 1 {
        match parse_uint(b.drop_first(), 8) {
            None => None,
            Some((x, r)) => Some((Some(x as u64), r)),
        }
    } else {
        None
    }
}

pub open spec fn parse_opt_str(b: Seq<u8>) -> Option<(Option<Seq<char>>, Seq<u8>)> {
    if b.len() == 0 {
        None
    } else if b[0] == 0 {
        Some((None, b.drop_first()))
    } else if b[0] == 1 {
        match parse_str(b.drop_first()) {
            None => None,
            Some((s, r)) => Some((Some(s), r)),
        }
    } else {
        None
    }
}

pub open spec fn parse_pairs(b: Seq<u8>, n: nat) -> Option<(Seq<(Seq<char>, Seq<char>)>, Seq<u8>)>
    decreases n,
{
    if n == 0 {
        Some((Seq::empty(), b))
    } else {
        match parse_str(b) {
            None => None,
            Some((k, r1)) => match parse_str(r1) {
                None => None,
                Some((v, r2)) => match parse_pairs(r2, (n - 1) as nat) {
                    None => None,
                    Some((t, r3)) => Some((seq![(k, v)] + t, r3)),
                },
            },
        }
    }
}

pub open spec fn parse_vars(b: Seq<u8>) -> Option<(Seq<(Seq<char>, Seq<char>)>, Seq<u8>)> {
    match parse_uint(b, 8) {
        None => None,
        Some((n, r)) => parse_pairs(r, n),
    }
}


pub open spec fn parse_worker_info(b: Seq<u8>) -> Option<(WorkerInfoView, Seq<u8>)> {
    match parse_str(b) {
        None => None,
        Some((id, r1)) => match parse_uint(r1, 1) {
            None => None,
            Some((sj, r2)) => match parse_str(r2) {
                None => None,
                Some((sv, r3)) => Some(
                    (
                        WorkerInfoView {
                            identifier: id,
                            simultaneous_jobs: sj as u8,
                            sw_version: sv,
                        },
                        r3,
                    ),
                ),
            },
        },
    }
}

pub open spec fn parse_job_msg(b: Seq<u8>) -> Option<(JobMsgView, Seq<u8>)> {
    match parse_uint(b, 16) {
        None => None,
        Some((id, r1)) => match parse_str(r1) {
            None => None,
            Some((script, r2)) => match parse_vars(r2) {
                None => None,
                Some((vars, r3)) => match parse_str(r3) {
                    None => None,
                    Some((file, r4)) => match parse_str(r4) {
                        None => None,
                        Some((root, r5)) => match parse_str(r5) {
                            None => None,
                            Some((dst, r6)) => Some(
                                (
                                    JobMsgView {
                                        job_id: id as u128,
                                        script,
                                        vars,
                                        file,
                                        library_root: root,
                                        dst_dir: dst,
                                    },
                                    r6,
                                ),
                            ),
                        },
                    },
                },
            },
        },
    }
}

pub open spec fn parse_progress(b: Seq<u8>) -> Option<(TranscodeProgressView, Seq<u8>)> {
    match parse_opt_u64(b) {
        None => None,
        Some((frame, r1)) => match parse_opt_u64(r1) {
            None => None,
            Some((fps, r2)) => match parse_opt_u64(r2) {
                None => None,
                Some((cur, r3)) => match parse_opt_u64(r3) {
                    None => None,
                    Some((pct, r4)) => match parse_opt_u64(r4) {
                        None => None,
                        Some((eta, r5)) => match parse_opt_str(r5) {
                            None => None,
                            Some((bitrate, r6)) => match parse_opt_u64(r6) {
                                None => None,
                                Some((speed, r7)) => Some(
                                    (
                                        TranscodeProgressView {
                                            frame,
                                            fps,
                                            cur_time_us: cur,
                                            percentage: pct,
                                            eta_us: eta,
                                            bitrate,
                                            speed_milli: speed,
                                        },
                                        r7,
                                    ),
                                ),
                            },
                        },
                    },
                },
            },
        },
    }
}

pub open spec fn parse_status(b: Seq<u8>) -> Option<(JobStatusView, Seq<u8>)> {
    match parse_uint(b, 4) {
        None => None,
        Some((t, r)) => if t == 0 {
            Some((JobStatusView::Ack, r))
        } else if t == 1 {
            match parse_str(r) {
                None => None,
                Some((x, r2)) => Some((JobStatusView::Declined(x), r2)),
            }
        } else if t == 2 {
            match parse_progress(r) {
                None => None,
                Some((x, r2)) => Some((JobStatusView::Progress(x), r2)),
            }
        } else if t == 3 {
            Some((JobStatusView::Copying, r))
        } else if t == 4 {
            match parse_str(r) {
                None => None,
                Some((x, r2)) => Some((JobStatusView::Milestone(x), r2)),
            }
        } else if t == 5 {
            match parse_str(r) {
                None => None,
                Some((x, r2)) => Some((JobStatusView::Log(x), r2)),
            }
        } else if t == 6 {
            match parse_str(r) {
                None => None,
                Some((x, r2)) => Some((JobStatusView::Error(x), r2)),
            }
        } else if t == 7 {
            match parse_opt_str(r) {
                None => None,
                Some((x, r2)) => Some((JobStatusView::Done { file: x }, r2)),
            }
        } else {
            None
        },
    }
}

pub open spec fn parse_status_msg(b: Seq<u8>) -> Option<(JobStatusMsgView, Seq<u8>)> {
    match parse_uint(b, 8) {
        None => None,
        Some((ts, r1)) => match parse_uint(r1, 16) {
            None => None,
            Some((id, r2)) => match parse_status(r2) {
                None => None,
                Some((st, r3)) => Some(
                    (JobStatusMsgView { timestamp: ts as u64, job_id: id as u128, status: st }, r3),
                ),
            },
        },
    }
}

/// Reads one message: the message and the bytes that follow it.
pub open spec fn parse_message(b: Seq<u8>) -> Option<(MessageView, Seq<u8>)> {
    match parse_uint(b, 4) {
        None => None,
        Some((t, r)) => if t == 0 {
            match parse_worker_info(r) {
                None => None,
                Some((w, r2)) => Some((MessageView::Hello(w), r2)),
            }
        } else if t == 1 {
            Some((MessageView::HelloAck, r))
        } else if t == 2 {
            Some((MessageView::CancelJobs, r))
        } else if t == 3 {
            Some((MessageView::Ping, r))
        } else if t == 4 {
            Some((MessageView::Pong, r))
        } else if t == 5 {
            match parse_job_msg(r) {
                None => None,
                Some((j, r2)) => Some((MessageView::Job(j), r2)),
            }
        } else if t == 6 {
            match parse_status_msg(r) {
                None => None,
                Some((s, r2)) => Some((MessageView::JobStatus(s), r2)),
            }
        } else if t == 7 {
            Some((MessageView::Bye, r))
        } else {
            None
        },
    }
}

/* Reading back what was written */

proof fn lemma_assoc(a: Seq<u8>, b: Seq<u8>, c: Seq<u8>)
    ensures
        a + b + c == a + (b + c),
{
    assert(a + b + c =~= a + (b + c));
}

proof fn lemma_pow_facts()
    ensures
        pow256(1) == 256,
        pow256(4) == 0x1_0000_0000,
        pow256(8) == 0x1_0000_0000_0000_0000,
        pow256(16) == 0x1_0000_0000_0000_0000_0000_0000_0000_0000,
{
    reveal_with_fuel(pow256, 17);
}

pub proof fn lemma_str_round_trip(s: Seq<char>, rest: Seq<u8>)
    requires
        str_fits(s),
    ensures
        parse_str(enc_str(s) + rest) == Some((s, rest)),
{
    let e = encode_utf8(s);
    let b = enc_str(s) + rest;
    assert(b =~= le_bytes(e.len(), 8) + (e + rest));
    lemma_parse_uint(e.len(), 8, e + rest);
    let r = e + rest;
    assert(r.take(e.len() as int) =~= e);
    assert(r.skip(e.len() as int) =~= rest);
    encode_utf8_valid_utf8(s);
    encode_utf8_decode_utf8(s);
}

pub proof fn lemma_opt_u64_round_trip(o: Option<u64>, rest: Seq<u8>)
    ensures
        parse_opt_u64(enc_opt_u64(o) + rest) == Some((o, rest)),
{
    let b = enc_opt_u64(o) + rest;
    match o {
        None => {
            assert(b.drop_first() =~= rest);
        },
        Some(x) => {
            lemma_pow_facts();
            assert(b.drop_first() =~= le_bytes(x as nat, 8) + rest);
            lemma_parse_uint(x as nat, 8, rest);
        },
    }
}

pub proof fn lemma_opt_str_round_trip(o: Option<Seq<char>>, rest: Seq<u8>)
    requires
        opt_str_fits(o),
    ensures
        parse_opt_str(enc_opt_str(o) + rest) == Some((o, rest)),
{
    let b = enc_opt_str(o) + rest;
    match o {
        None => {
            assert(b.drop_first() =~= rest);
        },
        Some(x) => {
            assert(b.drop_first() =~= enc_str(x) + rest);
            lemma_str_round_trip(x, rest);
        },
    }
}

#[verifier::rlimit(30)]
pub proof fn lemma_pairs_round_trip(v: Seq<(Seq<char>, Seq<char>)>, rest: Seq<u8>)
    requires
        forall|i: int| 0 <= i < v.len() ==> str_fits(#[trigger] v[i].0) && str_fits(v[i].1),
    ensures
        parse_pairs(enc_pairs(v) + rest, v.len()) == Some((v, rest)),
    decreases v.len(),
{
    if v.len() == 0 {
        assert(enc_pairs(v) + rest =~= rest);
    } else {
        let t = v.drop_first();
        assert(forall|i: int| 0 <= i < t.len() ==> #[trigger] t[i] == v[i + 1]);
        let tail = enc_pairs(t) + rest;
        let a = enc_str(v[0].0);
        let b = enc_str(v[0].1);
        lemma_assoc(a + b, enc_pairs(t), rest);
        lemma_assoc(a, b, tail);
        lemma_str_round_trip(v[0].0, b + tail);
        lemma_str_round_trip(v[0].1, tail);
        lemma_pairs_round_trip(t, rest);
        assert(seq![(v[0].0, v[0].1)] + t =~= v);
        assert(parse_pairs(enc_pairs(v) + rest, v.len()) == Some((seq![(v[0].0, v[0].1)] + t, rest)));
    }
}

pub proof fn lemma_vars_round_trip(v: Seq<(Seq<char>, Seq<char>)>, rest: Seq<u8>)
    requires
        vars_fit(v),
    ensures
        parse_vars(enc_vars(v) + rest) == Some((v, rest)),
{
    assert(enc_vars(v) + rest =~= le_bytes(v.len(), 8) + (enc_pairs(v) + rest));
    lemma_parse_uint(v.len(), 8, enc_pairs(v) + rest);
    lemma_pairs_round_trip(v, rest);
}

pub proof fn lemma_worker_info_round_trip(w: WorkerInfoView, rest: Seq<u8>)
    requires
        str_fits(w.identifier),
        str_fits(w.sw_version),
    ensures
        parse_worker_info(enc_worker_info(w) + rest) == Some((w, rest)),
{
    lemma_pow_facts();
    let t = enc_str(w.sw_version) + rest;
    let m = le_bytes(w.simultaneous_jobs as nat, 1) + t;
    assert(enc_worker_info(w) + rest =~= enc_str(w.identifier) + m);
    lemma_str_round_trip(w.identifier, m);
    lemma_parse_uint(w.simultaneous_jobs as nat, 1, t);
    lemma_str_round_trip(w.sw_version, rest);
}

pub proof fn lemma_job_msg_round_trip(j: JobMsgView, rest: Seq<u8>)
    requires
        str_fits(j.script),
        vars_fit(j.vars),
        str_fits(j.file),
        str_fits(j.library_root),
        str_fits(j.dst_dir),
    ensures
        parse_job_msg(enc_job_msg(j) + rest) == Some((j, rest)),
{
    lemma_pow_facts();
    let r5 = enc_str(j.dst_dir) + rest;
    let r4 = enc_str(j.library_root) + r5;
    let r3 = enc_str(j.file) + r4;
    let r2 = enc_vars(j.vars) + r3;
    let r1 = enc_str(j.script) + r2;
    let a = le_bytes(j.job_id as nat, 16);
    let b = enc_str(j.script);
    let c = enc_vars(j.vars);
    let d = enc_str(j.file);
    let e = enc_str(j.library_root);
    let f = enc_str(j.dst_dir);
    lemma_assoc(a + b + c + d + e, f, rest);
    lemma_assoc(a + b + c + d, e, r5);
    lemma_assoc(a + b + c, d, r4);
    lemma_assoc(a + b, c, r3);
    lemma_assoc(a, b, r2);
    lemma_parse_uint(j.job_id as nat, 16, r1);
    lemma_str_round_trip(j.script, r2);
    lemma_vars_round_trip(j.vars, r3);
    lemma_str_round_trip(j.file, r4);
    lemma_str_round_trip(j.library_root, r5);
    lemma_str_round_trip(j.dst_dir, rest);
}

pub proof fn lemma_progress_round_trip(p: TranscodeProgressView, rest: Seq<u8>)
    requires
        opt_str_fits(p.bitrate),
    ensures
        parse_progress(enc_progress(p) + rest) == Some((p, rest)),
{
    let r6 = enc_opt_u64(p.speed_milli) + rest;
    let r5 = enc_opt_str(p.bitrate) + r6;
    let r4 = enc_opt_u64(p.eta_us) + r5;
    let r3 = enc_opt_u64(p.percentage) + r4;
    let r2 = enc_opt_u64(p.cur_time_us) + r3;
    let r1 = enc_opt_u64(p.fps) + r2;
    let a = enc_opt_u64(p.frame);
    let b = enc_opt_u64(p.fps);
    let c = enc_opt_u64(p.cur_time_us);
    let d = enc_opt_u64(p.percentage);
    let e = enc_opt_u64(p.eta_us);
    let f = enc_opt_str(p.bitrate);
    let g = enc_opt_u64(p.speed_milli);
    lemma_assoc(a + b + c + d + e + f, g, rest);
    lemma_assoc(a + b + c + d + e, f, r6);
    lemma_assoc(a + b + c + d, e, r5);
    lemma_assoc(a + b + c, d, r4);
    lemma_assoc(a + b, c, r3);
    lemma_assoc(a, b, r2);
    lemma_opt_u64_round_trip(p.frame, r1);
    lemma_opt_u64_round_trip(p.fps, r2);
    lemma_opt_u64_round_trip(p.cur_time_us, r3);
    lemma_opt_u64_round_trip(p.percentage, r4);
    lemma_opt_u64_round_trip(p.eta_us, r5);
    lemma_opt_str_round_trip(p.bitrate, r6);
    lemma_opt_u64_round_trip(p.speed_milli, rest);
}

proof fn lemma_tagged(t: nat, body: Seq<u8>, rest: Seq<u8>)
    requires
        t < 8,
    ensures
        parse_uint(enc_tag(t) + body + rest, 4) == Some((t, body + rest)),
{
    lemma_pow_facts();
    assert(enc_tag(t) + body + rest =~= enc_tag(t) + (body + rest));
    lemma_parse_uint(t, 4, body + rest);
}

pub proof fn lemma_status_round_trip(s: JobStatusView, rest: Seq<u8>)
    requires
        status_fits(s),
    ensures
        parse_status(enc_status(s) + rest) == Some((s, rest)),
{
    let e = Seq::<u8>::empty();
    match s {
        JobStatusView::Ack => {
            lemma_tagged(0, e, rest);
            assert(enc_tag(0) + e =~= enc_tag(0));
            assert(e + rest =~= rest);
        },
        JobStatusView::Declined(x) => {
            lemma_tagged(1, enc_str(x), rest);
            lemma_str_round_trip(x, rest);
        },
        JobStatusView::Progress(x) => {
            lemma_tagged(2, enc_progress(x), rest);
            lemma_progress_round_trip(x, rest);
        },
        JobStatusView::Copying => {
            lemma_tagged(3, e, rest);
            assert(enc_tag(3) + e =~= enc_tag(3));
            assert(e + rest =~= rest);
        },
        JobStatusView::Milestone(x) => {
            lemma_tagged(4, enc_str(x), rest);
            lemma_str_round_trip(x, rest);
        },
        JobStatusView::Log(x) => {
            lemma_tagged(5, enc_str(x), rest);
            lemma_str_round_trip(x, rest);
        },
        JobStatusView::Error(x) => {
            lemma_tagged(6, enc_str(x), rest);
            lemma_str_round_trip(x, rest);
        },
        JobStatusView::Done { file } => {
            lemma_tagged(7, enc_opt_str(file), rest);
            lemma_opt_str_round_trip(file, rest);
        },
    }
}

pub proof fn lemma_status_msg_round_trip(m: JobStatusMsgView, rest: Seq<u8>)
    requires
        status_fits(m.status),
    ensures
        parse_status_msg(enc_status_msg(m) + rest) == Some((m, rest)),
{
    lemma_pow_facts();
    let r2 = enc_status(m.status) + rest;
    let r1 = le_bytes(m.job_id as nat, 16) + r2;
    assert(enc_status_msg(m) + rest =~= le_bytes(m.timestamp as nat, 8) + r1);
    lemma_parse_uint(m.timestamp as nat, 8, r1);
    lemma_parse_uint(m.job_id as nat, 16, r2);
    lemma_status_round_trip(m.status, rest);
}

/// Decoding what was encoded gives back the message, and what followed it
/// is left untouched.
pub proof fn lemma_message_round_trip(m: MessageView, rest: Seq<u8>)
    requires
        message_fits(m),
    ensures
        parse_message(enc_message(m) + rest) == Some((m, rest)),
{
    let e = Seq::<u8>::empty();
    match m {
        MessageView::Hello(w) => {
            lemma_tagged(0, enc_worker_info(w), rest);
            lemma_worker_info_round_trip(w, rest);
        },
        MessageView::HelloAck => {
            lemma_tagged(1, e, rest);
            assert(enc_tag(1) + e =~= enc_tag(1));
            assert(e + rest =~= rest);
        },
        MessageView::CancelJobs => {
            lemma_tagged(2, e, rest);
            assert(enc_tag(2) + e =~= enc_tag(2));
            assert(e + rest =~= rest);
        },
        MessageView::Ping => {
            lemma_tagged(3, e, rest);
            assert(enc_tag(3) + e =~= enc_tag(3));
            assert(e + rest =~= rest);
        },
        MessageView::Pong => {
            lemma_tagged(4, e, rest);
            assert(enc_tag(4) + e =~= enc_tag(4));
            assert(e + rest =~= rest);
        },
        MessageView::Job(j) => {
            lemma_tagged(5, enc_job_msg(j), rest);
            lemma_job_msg_round_trip(j, rest);
        },
        MessageView::JobStatus(s) => {
            lemma_tagged(6, enc_status_msg(s), rest);
            lemma_status_msg_round_trip(s, rest);
        },
        MessageView::Bye => {
            lemma_tagged(7, e, rest);
            assert(enc_tag(7) + e =~= enc_tag(7));
            assert(e + rest =~= rest);
        },
    }
}


/* Writing */

fn put_bytes(out: &mut Vec<u8>, b: &[u8])
    ensures
        final(out)@ == old(out)@ + b@,
{
    let ghost start = old(out)@;
    let mut i: usize = 0;
    while i < b.len()
        invariant
            i <= b@.len(),
            out@ == start + b@.take(i as int),
        decreases b@.len() - i,
    {
        out.push(b[i]);
        assert(b@.take(i + 1) =~= b@.take(i as int).push(b@[i as int]));
        i = i + 1;
    }
    assert(b@.take(i as int) =~= b@);
}

fn put_str(out: &mut Vec<u8>, s: &String)
    ensures
        final(out)@ == old(out)@ + enc_str(s@),
        str_fits(s@),
{
    let bytes = s.as_str().as_bytes();
    let n: usize = bytes.len();
    proof {
        lemma_pow_facts();
    }
    put_uint(out, n as u128, 8);
    put_bytes(out, bytes);
    assert(out@ =~= old(out)@ + enc_str(s@));
}

fn put_opt_u64(out: &mut Vec<u8>, o: Option<u64>)
    ensures
        final(out)@ == old(out)@ + enc_opt_u64(o),
{
    match o {
        None => {
            out.push(0u8);
            assert(out@ =~= old(out)@ + enc_opt_u64(o));
        },
        Some(x) => {
            out.push(1u8);
            put_uint(out, x as u128, 8);
            assert(out@ =~= old(out)@ + enc_opt_u64(o));
        },
    }
}

fn put_opt_str(out: &mut Vec<u8>, o: &Option<String>)
    ensures
        final(out)@ == old(out)@ + enc_opt_str(opt_str_view(*o)),
        opt_str_fits(opt_str_view(*o)),
{
    match o {
        None => {
            out.push(0u8);
            assert(out@ =~= old(out)@ + enc_opt_str(opt_str_view(*o)));
        },
        Some(x) => {
            out.push(1u8);
            put_str(out, x);
            assert(out@ =~= old(out)@ + enc_opt_str(opt_str_view(*o)));
        },
    }
}

proof fn lemma_enc_pairs_push(v: Seq<(Seq<char>, Seq<char>)>, x: (Seq<char>, Seq<char>))
    ensures
        enc_pairs(v.push(x)) == enc_pairs(v) + enc_str(x.0) + enc_str(x.1),
    decreases v.len(),
{
    if v.len() == 0 {
        assert(v.push(x).drop_first() =~= v);
        assert(enc_pairs(v.push(x)) =~= enc_pairs(v) + enc_str(x.0) + enc_str(x.1));
    } else {
        assert(v.push(x).drop_first() =~= v.drop_first().push(x));
        lemma_enc_pairs_push(v.drop_first(), x);
        assert(enc_pairs(v.push(x)) =~= enc_pairs(v) + enc_str(x.0) + enc_str(x.1));
    }
}

fn put_vars(out: &mut Vec<u8>, v: &Vec<(String, String)>)
    ensures
        final(out)@ == old(out)@ + enc_vars(pairs_view(v@)),
        vars_fit(pairs_view(v@)),
{
    let ghost start = old(out)@;
    let ghost pv = pairs_view(v@);
    proof {
        lemma_pow_facts();
    }
    put_uint(out, v.len() as u128, 8);
    let mut i: usize = 0;
    while i < v.len()
        invariant
            i <= v@.len(),
            pv == pairs_view(v@),
            out@ == start + le_bytes(v@.len() as nat, 8) + enc_pairs(pv.take(i as int)),
            forall|k: int| 0 <= k < i ==> str_fits(#[trigger] pv[k].0) && str_fits(pv[k].1),
        decreases v@.len() - i,
    {
        let pair = &v[i];
        put_str(out, &pair.0);
        put_str(out, &pair.1);
        assert(pv[i as int] == (pair.0@, pair.1@));
        assert(forall|k: int| 0 <= k < i + 1 ==> str_fits(#[trigger] pv[k].0) && str_fits(pv[k].1));
        proof {
            assert(pv.take(i + 1) =~= pv.take(i as int).push(pv[i as int]));
            lemma_enc_pairs_push(pv.take(i as int), pv[i as int]);
            assert(out@ =~= start + le_bytes(v@.len() as nat, 8) + enc_pairs(pv.take(i + 1)));
        }
        i = i + 1;
    }
    assert(pv.take(i as int) =~= pv);
    let n: usize = v.len();
    assert(pv.len() == n);
    assert(pv.len() < pow256(8));
    assert(forall|k: int| 0 <= k < pv.len() ==> str_fits(#[trigger] pv[k].0) && str_fits(pv[k].1));
    assert(vars_fit(pv));
}

fn put_worker_info(out: &mut Vec<u8>, w: &WorkerInfo)
    ensures
        final(out)@ == old(out)@ + enc_worker_info(w@),
        str_fits(w@.identifier),
        str_fits(w@.sw_version),
{
    put_str(out, &w.identifier);
    put_uint(out, w.simultaneous_jobs as u128, 1);
    put_str(out, &w.sw_version);
    assert(out@ =~= old(out)@ + enc_worker_info(w@));
}

fn put_job_msg(out: &mut Vec<u8>, j: &JobMsg)
    ensures
        final(out)@ == old(out)@ + enc_job_msg(j@),
        str_fits(j@.script),
        vars_fit(j@.vars),
        str_fits(j@.file),
        str_fits(j@.library_root),
        str_fits(j@.dst_dir),
{
    put_uint(out, j.job_id, 16);
    put_str(out, &j.script);
    put_vars(out, &j.vars);
    put_str(out, &j.file);
    put_str(out, &j.library_root);
    put_str(out, &j.dst_dir);
    assert(out@ =~= old(out)@ + enc_job_msg(j@));
}

fn put_progress(out: &mut Vec<u8>, p: &TranscodeProgress)
    ensures
        final(out)@ == old(out)@ + enc_progress(p@),
        opt_str_fits(p@.bitrate),
{
    let ghost s0 = old(out)@;
    let ghost a = enc_opt_u64(p.frame);
    let ghost b = enc_opt_u64(p.fps);
    let ghost c = enc_opt_u64(p.cur_time_us);
    let ghost d = enc_opt_u64(p.percentage);
    let ghost e = enc_opt_u64(p.eta_us);
    let ghost f = enc_opt_str(p@.bitrate);
    let ghost g = enc_opt_u64(p.speed_milli);
    put_opt_u64(out, p.frame);
    put_opt_u64(out, p.fps);
    proof {
        lemma_assoc(s0, a, b);
    }
    put_opt_u64(out, p.cur_time_us);
    proof {
        lemma_assoc(s0, a + b, c);
    }
    put_opt_u64(out, p.percentage);
    proof {
        lemma_assoc(s0, a + b + c, d);
    }
    put_opt_u64(out, p.eta_us);
    proof {
        lemma_assoc(s0, a + b + c + d, e);
    }
    put_opt_str(out, &p.bitrate);
    proof {
        lemma_assoc(s0, a + b + c + d + e, f);
    }
    put_opt_u64(out, p.speed_milli);
    proof {
        lemma_assoc(s0, a + b + c + d + e + f, g);
    }
}

fn put_status(out: &mut Vec<u8>, s: &JobStatus)
    ensures
        final(out)@ == old(out)@ + enc_status(s@),
        status_fits(s@),
{
    match s {
        JobStatus::Ack => {
            put_uint(out, 0, 4);
        },
        JobStatus::Declined(x) => {
            put_uint(out, 1, 4);
            put_str(out, x);
        },
        JobStatus::Progress(x) => {
            put_uint(out, 2, 4);
            put_progress(out, x);
        },
        JobStatus::Copying => {
            put_uint(out, 3, 4);
        },
        JobStatus::Milestone(x) => {
            put_uint(out, 4, 4);
            put_str(out, x);
        },
        JobStatus::Log(x) => {
            put_uint(out, 5, 4);
            put_str(out, x);
        },
        JobStatus::Error(x) => {
            put_uint(out, 6, 4);
            put_str(out, x);
        },
        JobStatus::Done { file } => {
            put_uint(out, 7, 4);
            put_opt_str(out, file);
        },
    }
    assert(out@ =~= old(out)@ + enc_status(s@));
}

fn put_status_msg(out: &mut Vec<u8>, m: &JobStatusMsg)
    ensures
        final(out)@ == old(out)@ + enc_status_msg(m@),
        status_fits(m@.status),
{
    put_uint(out, m.timestamp as u128, 8);
    put_uint(out, m.job_id, 16);
    put_status(out, &m.status);
    assert(out@ =~= old(out)@ + enc_status_msg(m@));
}

/// The bytes of `m` on the wire.
pub fn encode(m: &Message) -> (r: Vec<u8>)
    ensures
        r@ == enc_message(m@),
        message_fits(m@),
{
    let mut out: Vec<u8> = Vec::new();
    match m {
        Message::Hello(w) => {
            put_uint(&mut out, 0, 4);
            put_worker_info(&mut out, w);
        },
        Message::HelloAck => {
            put_uint(&mut out, 1, 4);
        },
        Message::CancelJobs => {
            put_uint(&mut out, 2, 4);
        },
        Message::Ping => {
            put_uint(&mut out, 3, 4);
        },
        Message::Pong => {
            put_uint(&mut out, 4, 4);
        },
        Message::Job(j) => {
            put_uint(&mut out, 5, 4);
            put_job_msg(&mut out, j);
        },
        Message::JobStatus(s) => {
            put_uint(&mut out, 6, 4);
            put_status_msg(&mut out, s);
        },
        Message::Bye => {
            put_uint(&mut out, 7, 4);
        },
    }
    assert(out@ =~= enc_message(m@));
    out
}


/* Reading */

/// Relies on std::str::from_utf8, which accepts exactly the valid UTF-8
/// byte sequences; the text given back is made of those bytes.
#[verifier::external_body]
pub(crate) fn utf8_text(b: &[u8]) -> (r: Option<String>)
    ensures
        match r {
            None => !valid_utf8(b@),
            Some(s) => encode_utf8(s@) == b@,
        },
{
    std::str::from_utf8(b).ok().map(|s| s.to_owned())
}

fn get_str(b: &[u8], pos: usize) -> (r: Option<(String, usize)>)
    requires
        pos <= b@.len(),
    ensures
        match r {
            None => parse_str(b@.skip(pos as int)) is None,
            Some((v, p)) => pos <= p <= b@.len() && parse_str(b@.skip(pos as int)) == Some(
                (v@, b@.skip(p as int)),
            ),
        },
{
    let (n, p) = match get_uint(b, pos, 8) {
        None => {
            return None;
        },
        Some(x) => x,
    };
    if n > (b.len() - p) as u128 {
        return None;
    }
    let n = n as usize;
    let ghost rem = b@.skip(p as int);
    assert(rem.take(n as int) =~= b@.subrange(p as int, p + n));
    assert(rem.skip(n as int) =~= b@.skip(p + n));
    let text = utf8_text(vstd::slice::slice_subrange(b, p, p + n));
    match text {
        None => None,
        Some(s) => {
            proof {
                encode_utf8_valid_utf8(s@);
                encode_utf8_decode_utf8(s@);
            }
            Some((s, p + n))
        },
    }
}

fn get_opt_u64(b: &[u8], pos: usize) -> (r: Option<(Option<u64>, usize)>)
    requires
        pos <= b@.len(),
    ensures
        match r {
            None => parse_opt_u64(b@.skip(pos as int)) is None,
            Some((v, p)) => pos <= p <= b@.len() && parse_opt_u64(b@.skip(pos as int)) == Some(
                (v, b@.skip(p as int)),
            ),
        },
{
    if pos == b.len() {
        return None;
    }
    let tag = b[pos];
    assert(b@.skip(pos as int).drop_first() =~= b@.skip(pos + 1));
    if tag == 0 {
        Some((None, pos + 1))
    } else if tag == 1 {
        match get_uint(b, pos + 1, 8) {
            None => None,
            Some((x, p)) => {
                proof {
                    lemma_pow_facts();
                }
                Some((Some(x as u64), p))
            },
        }
    } else {
        None
    }
}

fn get_opt_str(b: &[u8], pos: usize) -> (r: Option<(Option<String>, usize)>)
    requires
        pos <= b@.len(),
    ensures
        match r {
            None => parse_opt_str(b@.skip(pos as int)) is None,
            Some((v, p)) => pos <= p <= b@.len() && parse_opt_str(b@.skip(pos as int)) == Some(
                (opt_str_view(v), b@.skip(p as int)),
            ),
        },
{
    if pos == b.len() {
        return None;
    }
    let tag = b[pos];
    assert(b@.skip(pos as int).drop_first() =~= b@.skip(pos + 1));
    if tag == 0 {
        Some((None, pos + 1))
    } else if tag == 1 {
        match get_str(b, pos + 1) {
            None => None,
            Some((x, p)) => Some((Some(x), p)),
        }
    } else {
        None
    }
}

/// `res` with `acc` put in front of the pairs read.
pub open spec fn prepend_pairs(
    acc: Seq<(Seq<char>, Seq<char>)>,
    res: Option<(Seq<(Seq<char>, Seq<char>)>, Seq<u8>)>,
) -> Option<(Seq<(Seq<char>, Seq<char>)>, Seq<u8>)> {
    match res {
        None => None,
        Some((t, r)) => Some((acc + t, r)),
    }
}

fn get_vars(b: &[u8], pos: usize) -> (r: Option<(Vec<(String, String)>, usize)>)
    requires
        pos <= b@.len(),
    ensures
        match r {
            None => parse_vars(b@.skip(pos as int)) is None,
            Some((v, p)) => pos <= p <= b@.len() && parse_vars(b@.skip(pos as int)) == Some(
                (pairs_view(v@), b@.skip(p as int)),
            ),
        },
{
    let (n, at0) = match get_uint(b, pos, 8) {
        None => {
            return None;
        },
        Some(x) => x,
    };
    let mut out: Vec<(String, String)> = Vec::new();
    let mut p: usize = at0;
    let mut i: u128 = 0;
    while i < n
        invariant
            i <= n,
            pos <= at0 <= p <= b@.len(),
            parse_vars(b@.skip(pos as int)) == parse_pairs(b@.skip(at0 as int), n as nat),
            parse_pairs(b@.skip(at0 as int), n as nat) == prepend_pairs(
                pairs_view(out@),
                parse_pairs(b@.skip(p as int), (n - i) as nat),
            ),
        decreases n - i,
    {
        let ghost before = pairs_view(out@);
        let (k, at1) = match get_str(b, p) {
            None => {
                return None;
            },
            Some(x) => x,
        };
        let (v, at2) = match get_str(b, at1) {
            None => {
                return None;
            },
            Some(x) => x,
        };
        out.push((k, v));
        proof {
            assert(pairs_view(out@) =~= before.push((k@, v@)));
            let rest = parse_pairs(b@.skip(at2 as int), (n - i - 1) as nat);
            match rest {
                None => {},
                Some((t, r3)) => {
                    assert(before + (seq![(k@, v@)] + t) =~= before.push((k@, v@)) + t);
                },
            }
        }
        p = at2;
        i = i + 1;
    }
    assert(pairs_view(out@) + Seq::<(Seq<char>, Seq<char>)>::empty() =~= pairs_view(out@));
    Some((out, p))
}

fn get_worker_info(b: &[u8], pos: usize) -> (r: Option<(WorkerInfo, usize)>)
    requires
        pos <= b@.len(),
    ensures
        match r {
            None => parse_worker_info(b@.skip(pos as int)) is None,
            Some((v, p)) => pos <= p <= b@.len() && parse_worker_info(b@.skip(pos as int)) == Some(
                (v@, b@.skip(p as int)),
            ),
        },
{
    let (identifier, at1) = match get_str(b, pos) {
        None => {
            return None;
        },
        Some(x) => x,
    };
    let (sj, at2) = match get_uint(b, at1, 1) {
        None => {
            return None;
        },
        Some(x) => x,
    };
    proof {
        lemma_pow_facts();
    }
    let (sw_version, at3) = match get_str(b, at2) {
        None => {
            return None;
        },
        Some(x) => x,
    };
    Some((WorkerInfo { identifier, simultaneous_jobs: sj as u8, sw_version }, at3))
}

fn get_job_msg(b: &[u8], pos: usize) -> (r: Option<(JobMsg, usize)>)
    requires
        pos <= b@.len(),
    ensures
        match r {
            None => parse_job_msg(b@.skip(pos as int)) is None,
            Some((v, p)) => pos <= p <= b@.len() && parse_job_msg(b@.skip(pos as int)) == Some(
                (v@, b@.skip(p as int)),
            ),
        },
{
    let (job_id, at1) = match get_uint(b, pos, 16) {
        None => {
            return None;
        },
        Some(x) => x,
    };
    let (script, at2) = match get_str(b, at1) {
        None => {
            return None;
        },
        Some(x) => x,
    };
    let (vars, at3) = match get_vars(b, at2) {
        None => {
            return None;
        },
        Some(x) => x,
    };
    let (file, at4) = match get_str(b, at3) {
        None => {
            return None;
        },
        Some(x) => x,
    };
    let (library_root, at5) = match get_str(b, at4) {
        None => {
            return None;
        },
        Some(x) => x,
    };
    let (dst_dir, at6) = match get_str(b, at5) {
        None => {
            return None;
        },
        Some(x) => x,
    };
    Some((JobMsg { job_id, script, vars, file, library_root, dst_dir }, at6))
}

fn get_progress(b: &[u8], pos: usize) -> (r: Option<(TranscodeProgress, usize)>)
    requires
        pos <= b@.len(),
    ensures
        match r {
            None => parse_progress(b@.skip(pos as int)) is None,
            Some((v, p)) => pos <= p <= b@.len() && parse_progress(b@.skip(pos as int)) == Some(
                (v@, b@.skip(p as int)),
            ),
        },
{
    let (frame, at1) = match get_opt_u64(b, pos) {
        None => {
            return None;
        },
        Some(x) => x,
    };
    let (fps, at2) = match get_opt_u64(b, at1) {
        None => {
            return None;
        },
        Some(x) => x,
    };
    let (cur_time_us, at3) = match get_opt_u64(b, at2) {
        None => {
            return None;
        },
        Some(x) => x,
    };
    let (percentage, at4) = match get_opt_u64(b, at3) {
        None => {
            return None;
        },
        Some(x) => x,
    };
    let (eta_us, at5) = match get_opt_u64(b, at4) {
        None => {
            return None;
        },
        Some(x) => x,
    };
    let (bitrate, at6) = match get_opt_str(b, at5) {
        None => {
            return None;
        },
        Some(x) => x,
    };
    let (speed_milli, at7) = match get_opt_u64(b, at6) {
        None => {
            return None;
        },
        Some(x) => x,
    };
    Some(
        (
            TranscodeProgress {
                frame,
                fps,
                cur_time_us,
                percentage,
                eta_us,
                bitrate,
                speed_milli,
            },
            at7,
        ),
    )
}

fn get_status(b: &[u8], pos: usize) -> (r: Option<(JobStatus, usize)>)
    requires
        pos <= b@.len(),
    ensures
        match r {
            None => parse_status(b@.skip(pos as int)) is None,
            Some((v, p)) => pos <= p <= b@.len() && parse_status(b@.skip(pos as int)) == Some(
                (v@, b@.skip(p as int)),
            ),
        },
{
    let (t, p) = match get_uint(b, pos, 4) {
        None => {
            return None;
        },
        Some(x) => x,
    };
    if t == 0 {
        Some((JobStatus::Ack, p))
    } else if t == 1 {
        match get_str(b, p) {
            None => None,
            Some((x, q)) => Some((JobStatus::Declined(x), q)),
        }
    } else if t == 2 {
        match get_progress(b, p) {
            None => None,
            Some((x, q)) => Some((JobStatus::Progress(x), q)),
        }
    } else if t == 3 {
        Some((JobStatus::Copying, p))
    } else if t == 4 {
        match get_str(b, p) {
            None => None,
            Some((x, q)) => Some((JobStatus::Milestone(x), q)),
        }
    } else if t == 5 {
        match get_str(b, p) {
            None => None,
            Some((x, q)) => Some((JobStatus::Log(x), q)),
        }
    } else if t == 6 {
        match get_str(b, p) {
            None => None,
            Some((x, q)) => Some((JobStatus::Error(x), q)),
        }
    } else if t == 7 {
        match get_opt_str(b, p) {
            None => None,
            Some((x, q)) => Some((JobStatus::Done { file: x }, q)),
        }
    } else {
        None
    }
}

fn get_status_msg(b: &[u8], pos: usize) -> (r: Option<(JobStatusMsg, usize)>)
    requires
        pos <= b@.len(),
    ensures
        match r {
            None => parse_status_msg(b@.skip(pos as int)) is None,
            Some((v, p)) => pos <= p <= b@.len() && parse_status_msg(b@.skip(pos as int)) == Some(
                (v@, b@.skip(p as int)),
            ),
        },
{
    let (timestamp, at1) = match get_uint(b, pos, 8) {
        None => {
            return None;
        },
        Some(x) => x,
    };
    proof {
        lemma_pow_facts();
    }
    let (job_id, at2) = match get_uint(b, at1, 16) {
        None => {
            return None;
        },
        Some(x) => x,
    };
    let (status, at3) = match get_status(b, at2) {
        None => {
            return None;
        },
        Some(x) => x,
    };
    Some((JobStatusMsg { timestamp: timestamp as u64, job_id, status }, at3))
}

/// Reads the message at the start of `b`; bytes after it are ignored.
pub fn decode(b: &[u8]) -> (r: Option<Message>)
    ensures
        r is Some <==> parse_message(b@) is Some,
        r matches Some(m) ==> m@ == parse_message(b@)->Some_0.0,
{
    assert(b@.skip(0) =~= b@);
    let (t, p) = match get_uint(b, 0, 4) {
        None => {
            return None;
        },
        Some(x) => x,
    };
    if t == 0 {
        match get_worker_info(b, p) {
            None => None,
            Some((x, _)) => Some(Message::Hello(x)),
        }
    } else if t == 1 {
        Some(Message::HelloAck)
    } else if t == 2 {
        Some(Message::CancelJobs)
    } else if t == 3 {
        Some(Message::Ping)
    } else if t == 4 {
        Some(Message::Pong)
    } else if t == 5 {
        match get_job_msg(b, p) {
            None => None,
            Some((x, _)) => Some(Message::Job(x)),
        }
    } else if t == 6 {
        match get_status_msg(b, p) {
            None => None,
            Some((x, _)) => Some(Message::JobStatus(x)),
        }
    } else if t == 7 {
        Some(Message::Bye)
    } else {
        None
    }
}

/// Decoding the bytes of an encoded message gives the message back.
pub proof fn law_decode_encode(m: MessageView)
    requires
        message_fits(m),
    ensures
        parse_message(enc_message(m)) == Some((m, Seq::<u8>::empty())),
{
    lemma_message_round_trip(m, Seq::empty());
    assert(enc_message(m) + Seq::<u8>::empty() =~= enc_message(m));
}

} // verus!
