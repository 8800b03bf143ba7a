use trahl::dispatch::{CatalogUpdate, Dispatcher, JobContract};
use trahl::hashing::{content_hash, digest_text, script_hash};
use trahl::librarian::{library_relative_path, ScanRegistry};
use trahl::path::FsPath;
use trahl::peer::{keepalive_tick, PeerRoutes, RouteAction};
use trahl::wire::{JobStatus, JobStatusMsg, Message, WorkerInfo};

fn worker(name: &str, n: u8) -> WorkerInfo {
    WorkerInfo { identifier: name.to_string(), simultaneous_jobs: n, sw_version: "1".to_string() }
}

fn contract(id: u64) -> JobContract {
    JobContract::new(
        id,
        "/lib".to_string(),
        "/lib/a.mkv".to_string(),
        "dst_dir".to_string(),
        vec![("K".to_string(), "v".to_string())],
        "script".to_string(),
    )
}

fn status(id: u128, s: JobStatus) -> JobStatusMsg {
    JobStatusMsg::new(0, id, s)
}

#[test]
fn handshake_connects_new_identity() {
    let mut routes = PeerRoutes::new();
    let hello = Message::hello(worker("w1", 2));
    match routes.on_frame(vec![1, 2], hello.clone()) {
        RouteAction::Connect(info) => {
            assert_eq!(info.identifier, "w1");
            assert_eq!(info.simultaneous_jobs, 2);
            assert_eq!(info.sw_version, "1");
        }
        other => panic!("unexpected {:?}", other),
    }
    assert!(matches!(routes.on_frame(vec![1, 2], hello), RouteAction::Ignore));
    assert!(matches!(routes.on_frame(vec![1, 2], Message::Pong), RouteAction::Forward(Message::Pong)));
    assert!(matches!(routes.on_frame(vec![9], Message::Pong), RouteAction::Ignore));
    assert!(matches!(routes.on_frame(vec![1, 2], Message::Bye), RouteAction::Disconnect));
    assert!(matches!(routes.on_frame(vec![1, 2], Message::Bye), RouteAction::Ignore));
    assert!(routes.identities().is_empty());
}

#[test]
fn send_failure_drops_peer() {
    let mut routes = PeerRoutes::new();
    routes.on_frame(vec![7], Message::hello(worker("w", 1)));
    assert!(routes.on_send_failed(&[7]));
    assert!(!routes.on_send_failed(&[7]));
}

#[test]
fn keepalive_pings_then_gives_up() {
    assert_eq!(keepalive_tick(10_000, 8_000), (vec![Message::Ping], false));
    assert_eq!(keepalive_tick(13_000, 8_000), (vec![Message::Ping, Message::Bye], true));
    assert_eq!(keepalive_tick(1_000, 8_000), (vec![Message::Ping], false));
}

#[test]
fn dispatch_and_success() {
    let mut d = Dispatcher::new();
    d.peer_connected(b"w1".to_vec(), worker("w1", 2));
    let peer = d.select_peer().unwrap();
    let msg = d.assign(peer, contract(42)).unwrap();
    assert_eq!(msg.job_id, 42);
    assert_eq!(msg.file, "/lib/a.mkv");
    assert_eq!(msg.dst_dir, "dst_dir");
    assert_eq!(d.job_status(b"w1", status(42, JobStatus::Ack)), CatalogUpdate::Nothing);
    assert_eq!(d.job_status(b"w1", status(42, JobStatus::Log("hi".to_string()))), CatalogUpdate::Nothing);
    assert_eq!(d.job_status(b"w1", status(42, JobStatus::Copying)), CatalogUpdate::Nothing);
    assert_eq!(
        d.job_status(b"w1", status(42, JobStatus::Done { file: Some("dst_dir/out.mkv".to_string()) })),
        CatalogUpdate::Succeed(42, Some("dst_dir/out.mkv".to_string()))
    );
    assert_eq!(d.job_status(b"w1", status(42, JobStatus::Error("late".to_string()))), CatalogUpdate::Nothing);
    assert_eq!(d.peer_disconnected(b"w1"), Vec::<u64>::new());
}

#[test]
fn disconnect_mid_job_requeues() {
    let mut d = Dispatcher::new();
    d.peer_connected(b"w1".to_vec(), worker("w1", 2));
    d.assign(0, contract(42)).unwrap();
    d.job_status(b"w1", status(42, JobStatus::Ack));
    d.assign(0, contract(43)).unwrap();
    assert_eq!(d.peer_disconnected(b"w1"), vec![42, 43]);
    assert_eq!(d.select_peer(), None);
    assert_eq!(d.peer_disconnected(b"w1"), Vec::<u64>::new());
}

#[test]
fn capacity_and_least_loaded() {
    let mut d = Dispatcher::new();
    d.peer_connected(b"a".to_vec(), worker("a", 1));
    d.peer_connected(b"b".to_vec(), worker("b", 3));
    assert_eq!(d.select_peer(), Some(0));
    d.assign(0, contract(1)).unwrap();
    assert!(d.assign(0, contract(2)).is_none());
    assert_eq!(d.select_peer(), Some(1));
    d.assign(1, contract(2)).unwrap();
    d.assign(1, contract(3)).unwrap();
    d.assign(1, contract(4)).unwrap();
    assert_eq!(d.select_peer(), None);
    assert_eq!(
        d.job_status(b"b", status(3, JobStatus::Declined("busy".to_string()))),
        CatalogUpdate::Requeue(3)
    );
    assert_eq!(d.select_peer(), Some(1));
    assert_eq!(d.job_status(b"a", status(1, JobStatus::Ack)), CatalogUpdate::Nothing);
    assert_eq!(d.job_status(b"a", status(1, JobStatus::Error("x".to_string()))), CatalogUpdate::Fail(1));
    assert_eq!(d.job_status(b"zz", status(1, JobStatus::Ack)), CatalogUpdate::Nothing);
    assert_eq!(d.job_status(b"a", status(99, JobStatus::Ack)), CatalogUpdate::Nothing);
    assert_eq!(d.peer_ids(), vec![b"a".to_vec(), b"b".to_vec()]);
}

#[test]
fn reconnect_replaces_peer() {
    let mut d = Dispatcher::new();
    d.peer_connected(b"a".to_vec(), worker("a", 1));
    d.assign(0, contract(1)).unwrap();
    d.peer_connected(b"a".to_vec(), worker("a", 1));
    assert_eq!(d.peer_ids().len(), 1);
    assert_eq!(d.select_peer(), Some(0));
}

#[test]
fn single_flight_scans() {
    let mut r = ScanRegistry::new();
    assert!(r.try_begin(3));
    assert!(!r.try_begin(3));
    assert!(r.try_begin(4));
    assert!(r.is_scanning(3));
    r.finish(3);
    assert!(!r.is_scanning(3));
    assert!(r.is_scanning(4));
    assert!(r.try_begin(3));
}

#[test]
fn relative_paths_of_discovered_files() {
    let lib = FsPath::parse("/media/movies");
    assert_eq!(library_relative_path(&FsPath::parse("/media/movies/2020/a.mkv"), &lib), "2020/a.mkv");
    assert_eq!(library_relative_path(&FsPath::parse("/other/b.mkv"), &lib), "/other/b.mkv");
}

#[test]
fn hashes_are_fixed_width_hex() {
    let a = content_hash(b"hello");
    assert_eq!(a.len(), 32);
    assert!(a.chars().all(|c| c.is_ascii_hexdigit() && !c.is_ascii_uppercase()));
    assert_eq!(a, content_hash(b"hello"));
    assert_ne!(a, content_hash(b"hellp"));
    assert_eq!(a, format!("{:032x}", xxhash_rust::xxh3::xxh3_128(b"hello")));
    assert_eq!(digest_text(255), "000000000000000000000000000000ff");
    let s = script_hash("print(1)");
    assert_eq!(s.len(), 16);
    assert_eq!(s, format!("{:016x}", xxhash_rust::xxh3::xxh3_64(b"print(1)")));
}
