use trahl::codec::{decode, encode};
use trahl::wire::{JobMsg, JobStatus, JobStatusMsg, Message, TranscodeProgress, WorkerInfo};

fn sample_messages() -> Vec<Message> {
    vec![
        Message::hello(WorkerInfo {
            identifier: "w1".to_string(),
            simultaneous_jobs: 2,
            sw_version: "1".to_string(),
        }),
        Message::ack(),
        Message::cancel_jobs(),
        Message::ping(),
        Message::pong(),
        Message::job(JobMsg {
            job_id: 42,
            script: "_trahl.log(_trahl.INFO,'hi')".to_string(),
            vars: vec![
                ("QUALITY".to_string(), "720p".to_string()),
                ("CODEC".to_string(), "hevc".to_string()),
            ],
            file: "/media/source/movies/a.mkv".to_string(),
            library_root: "/media/source/movies".to_string(),
            dst_dir: "/media/destination/movies".to_string(),
        }),
        Message::job_status(JobStatusMsg::new(
            1_700_000_000,
            42,
            JobStatus::Progress(TranscodeProgress {
                frame: Some(30),
                fps: Some(30),
                cur_time_us: Some(1_000_000),
                percentage: Some(10),
                eta_us: Some(6_000_000),
                bitrate: Some("500kbits/s".to_string()),
                speed_milli: Some(1500),
            }),
        )),
        Message::job_status(JobStatusMsg::new(5, u128::MAX, JobStatus::Done { file: None })),
        Message::job_status(JobStatusMsg::new(5, 7, JobStatus::Error("héllo ✓".to_string()))),
        Message::bye(),
    ]
}

#[test]
fn codec_round_trip_every_variant() {
    for m in sample_messages() {
        let bytes = encode(&m);
        assert_eq!(decode(&bytes), Some(m));
    }
}

#[test]
fn codec_ignores_trailing_bytes() {
    let mut bytes = encode(&Message::ping());
    bytes.extend_from_slice(&[9, 9, 9]);
    assert_eq!(decode(&bytes), Some(Message::Ping));
}

#[test]
fn codec_rejects_truncated_and_unknown() {
    let bytes = encode(&sample_messages()[5]);
    for cut in 0..bytes.len() {
        assert_eq!(decode(&bytes[..cut]), None);
    }
    assert_eq!(decode(&[8, 0, 0, 0]), None);
}

#[test]
fn codec_rejects_invalid_utf8() {
    let mut bytes = vec![0, 0, 0, 0];
    bytes.extend_from_slice(&1u64.to_le_bytes());
    bytes.push(0xff);
    bytes.push(1);
    bytes.extend_from_slice(&0u64.to_le_bytes());
    assert_eq!(decode(&bytes), None);
}

#[test]
fn codec_layout_matches_bincode_legacy() {
    let cfg = bincode::config::legacy();
    assert_eq!(encode(&Message::Ping), bincode::encode_to_vec(3u32, cfg).unwrap());
    let hello = encode(&sample_messages()[0]);
    let expected = bincode::encode_to_vec(
        (0u32, ("w1".to_string(), 2u8, "1".to_string())),
        cfg,
    )
    .unwrap();
    assert_eq!(hello, expected);
    let done = encode(&Message::job_status(JobStatusMsg::new(
        9,
        3,
        JobStatus::Done { file: Some("dst/out.mkv".to_string()) },
    )));
    let expected = bincode::encode_to_vec(
        (6u32, 9u64, 3u128, 7u32, Some("dst/out.mkv".to_string())),
        cfg,
    )
    .unwrap();
    assert_eq!(done, expected);
}

#[test]
fn status_constructors_keep_job_and_status() {
    let m = JobStatusMsg::job_log(42, "hi".to_string());
    assert_eq!(m.job_id, 42);
    assert_eq!(m.status, JobStatus::Log("hi".to_string()));
    assert!(m.timestamp > 1_600_000_000);
    assert_eq!(JobStatusMsg::job_ack(1).status, JobStatus::Ack);
    assert_eq!(JobStatusMsg::job_copying(1).status, JobStatus::Copying);
    assert_eq!(
        JobStatusMsg::job_done(1, Some("x".to_string())).status,
        JobStatus::Done { file: Some("x".to_string()) }
    );
    assert_eq!(
        JobStatusMsg::job_declined(1, "busy".to_string()).status,
        JobStatus::Declined("busy".to_string())
    );
    assert_eq!(
        JobStatusMsg::job_milestone(1, "m".to_string()).status,
        JobStatus::Milestone("m".to_string())
    );
    assert_eq!(JobStatusMsg::job_error(1, "e".to_string()).status, JobStatus::Error("e".to_string()));
}
