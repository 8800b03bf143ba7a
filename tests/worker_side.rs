use trahl::config::{remap_to_master, remap_to_worker, FsRemap, LogConfig};
use trahl::path::FsPath;
use trahl::progress::ProgressParser;
use trahl::runner::{
    build_script_vars, on_master_message, output_destination, plan_completion, set_var, Completion,
    PlacementError, WorkerAction,
};
use trahl::wire::{JobMsg, Message};

fn p(s: &str) -> FsPath {
    FsPath::parse(s)
}

fn remaps() -> Option<Vec<FsRemap>> {
    Some(vec![FsRemap { master: p("/media"), worker: p("/mnt/nas") }])
}

#[test]
fn progress_block_from_transcoder() {
    let mut parser = ProgressParser::new(10_000_000);
    let lines = [
        "frame=30",
        "fps=30.0",
        "bitrate=500kbits/s",
        "speed=1.5x",
        "out_time_ms=1000000",
    ];
    for l in lines {
        assert_eq!(parser.feed_line(l), (None, false));
    }
    let (report, end) = parser.feed_line("progress=continue");
    assert!(!end);
    let tp = report.unwrap();
    assert_eq!(tp.frame, Some(30));
    assert_eq!(tp.fps, Some(30));
    assert_eq!(tp.bitrate, Some("500kbits/s".to_string()));
    assert_eq!(tp.speed_milli, Some(1500));
    assert_eq!(tp.cur_time_us, Some(1_000_000));
    assert_eq!(tp.percentage, Some(10));
    assert_eq!(tp.eta_us, Some(6_000_000));
}

#[test]
fn progress_end_and_rounding() {
    let mut parser = ProgressParser::new(3_000_000);
    parser.feed_line("fps=29.5");
    parser.feed_line("speed= 0.75x ");
    parser.feed_line("out_time_ms=2999999");
    parser.feed_line("no separator here");
    let (report, end) = parser.feed_line("progress=end");
    assert!(end);
    let tp = report.unwrap();
    assert_eq!(tp.fps, Some(30));
    assert_eq!(tp.speed_milli, Some(750));
    assert_eq!(tp.percentage, Some(100));
    assert_eq!(tp.eta_us, Some(1));
    assert_eq!(tp.frame, None);
    assert_eq!(tp.bitrate, None);
    let (next, _) = parser.feed_line("progress=continue");
    assert_eq!(next.unwrap().cur_time_us, None);
}

#[test]
fn progress_zero_duration_and_bad_speed() {
    let mut parser = ProgressParser::new(0);
    parser.feed_line("out_time_ms=5");
    parser.feed_line("speed=N/A");
    let (report, _) = parser.feed_line("progress=continue");
    let tp = report.unwrap();
    assert_eq!(tp.percentage, Some(100));
    assert_eq!(tp.speed_milli, None);
    assert_eq!(tp.eta_us, None);
}

#[test]
fn remap_moves_prefix_only() {
    let r = &remaps().unwrap()[0];
    assert_eq!(r.map_to_worker(&p("/media/movies/a.mkv")).render(), "/mnt/nas/movies/a.mkv");
    assert_eq!(r.map_to_worker(&p("/other/a.mkv")).render(), "/other/a.mkv");
    assert_eq!(r.map_to_worker(&p("/mediax/a.mkv")).render(), "/mediax/a.mkv");
    assert_eq!(r.map_to_master(&p("/mnt/nas/tv")).render(), "/media/tv");
}

#[test]
fn remap_round_trip_is_stable() {
    let r = &remaps().unwrap()[0];
    let start = p("/media/movies/a.mkv");
    let w = r.map_to_worker(&start);
    let again = r.map_to_worker(&r.map_to_master(&w));
    assert_eq!(again, w);
}

#[test]
fn remap_lists_apply_in_order() {
    let rs = Some(vec![
        FsRemap { master: p("/a"), worker: p("/b") },
        FsRemap { master: p("/b"), worker: p("/c") },
    ]);
    assert_eq!(remap_to_worker(&p("/a/x"), &rs).render(), "/c/x");
    assert_eq!(remap_to_master(&p("/c/x"), &rs).render(), "/b/x");
    assert_eq!(remap_to_master(&p("/b/x"), &rs).render(), "/a/x");
    assert_eq!(remap_to_worker(&p("/a/x"), &None).render(), "/a/x");
}

#[test]
fn placement_modes() {
    let produced = p("/cache/job1/out.mkv");
    let src = p("/lib/movies/2020/a.mkv");
    let root = p("/lib/movies");
    let dst = p("/dst");
    assert_eq!(
        output_destination(1, &produced, &src, &root, &dst).unwrap().render(),
        "/dst/2020/out.mkv"
    );
    assert_eq!(output_destination(2, &produced, &src, &root, &dst).unwrap().render(), "/dst/out.mkv");
    assert_eq!(
        output_destination(3, &produced, &src, &root, &dst).unwrap().render(),
        "/lib/movies/2020/a.mkv"
    );
    assert_eq!(
        output_destination(4, &produced, &src, &root, &dst),
        Err(PlacementError::UnknownMode(4))
    );
    assert_eq!(
        output_destination(1, &produced, &p("/elsewhere/a.mkv"), &root, &dst),
        Err(PlacementError::NotUnderLibraryRoot)
    );
    assert_eq!(output_destination(2, &p(""), &src, &root, &dst), Err(PlacementError::NoFileName));
}

fn job() -> JobMsg {
    JobMsg {
        job_id: 42,
        script: "_trahl.log(_trahl.INFO,'hi'); _trahl.set_output('/tmp/out.mkv',2)".to_string(),
        vars: vec![("SRCFILE".to_string(), "stale".to_string()), ("K".to_string(), "v".to_string())],
        file: "/media/movies/a.mkv".to_string(),
        library_root: "/media/movies".to_string(),
        dst_dir: "dst_dir".to_string(),
    }
}

#[test]
fn script_vars_are_remapped() {
    let vars = build_script_vars(&job(), &"/cache/job42".to_string(), &remaps());
    let get = |k: &str| vars.iter().filter(|(a, _)| a == k).map(|(_, b)| b.clone()).collect::<Vec<_>>();
    assert_eq!(get("K"), vec!["v".to_string()]);
    assert_eq!(get("CACHEDIR"), vec!["/cache/job42".to_string()]);
    assert_eq!(get("SRCFILE"), vec!["/mnt/nas/movies/a.mkv".to_string()]);
    assert_eq!(get("LIBRARYROOT"), vec!["/mnt/nas/movies".to_string()]);
    assert_eq!(get("DSTDIR"), vec!["dst_dir".to_string()]);
}

#[test]
fn set_var_replaces() {
    let mut v = vec![("A".to_string(), "1".to_string()), ("B".to_string(), "2".to_string())];
    set_var(&mut v, "A".to_string(), "3".to_string());
    assert_eq!(v, vec![("B".to_string(), "2".to_string()), ("A".to_string(), "3".to_string())]);
}

#[test]
fn completion_flat_reports_destination() {
    let out = Some(("/tmp/out.mkv".to_string(), 2u8));
    match plan_completion(&job(), &None, &out, true) {
        Completion::Copy { from, to, reported } => {
            assert_eq!(from.render(), "/tmp/out.mkv");
            assert_eq!(to.render(), "dst_dir/out.mkv");
            assert_eq!(reported, "dst_dir/out.mkv");
        }
        other => panic!("unexpected {:?}", other),
    }
    assert!(matches!(plan_completion(&job(), &None, &None, true), Completion::NoOutput));
    assert!(matches!(
        plan_completion(&job(), &None, &out, false),
        Completion::Fail(PlacementError::MissingOutput)
    ));
    let overwrite = Some(("/tmp/out.mkv".to_string(), 3u8));
    match plan_completion(&job(), &remaps(), &overwrite, true) {
        Completion::Copy { to, reported, .. } => {
            assert_eq!(to.render(), "/mnt/nas/movies/a.mkv");
            assert_eq!(reported, "/media/movies/a.mkv");
        }
        other => panic!("unexpected {:?}", other),
    }
}

#[test]
fn log_config_default() {
    let c = LogConfig::default();
    assert_eq!(c.level, "info");
    assert_eq!(c.file, None);
}

#[test]
fn worker_answers_ping_and_starts_jobs() {
    assert!(matches!(on_master_message(Message::Ping), WorkerAction::Reply(Message::Pong)));
    match on_master_message(Message::job(job())) {
        WorkerAction::Start(j) => assert_eq!(j, job()),
        other => panic!("unexpected {:?}", other),
    }
    assert!(matches!(on_master_message(Message::Bye), WorkerAction::Note(Message::Bye)));
}
