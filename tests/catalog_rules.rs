use trahl::catalog::{contract_from_rows, merge_libraries, variables_for, LibraryRow, RowVariable};
use trahl::config::JobConfig;
use trahl::dispatch::{JobQueueEntry, ManagerEvent};

fn row(id: i64, name: &str, from_config: bool, enabled: bool) -> LibraryRow {
    LibraryRow {
        id: Some(id),
        name: name.to_string(),
        from_config,
        path: format!("/old/{}", name),
        destination: "/old/dst".to_string(),
        script_id: 1,
        enabled,
    }
}

fn cfg(name: &str, enabled: bool) -> JobConfig {
    JobConfig {
        name: name.to_string(),
        enabled,
        source_path: format!("/media/{}", name),
        destination_path: format!("/out/{}", name),
        lua_script: "/scripts/a.lua".to_string(),
        variables: vec![],
    }
}

#[test]
fn merge_updates_inserts_and_disables() {
    let mut table = vec![
        row(1, "Movies", true, false),
        row(2, "Old", true, true),
        row(3, "Mine", false, true),
        row(4, "Old", false, true),
    ];
    let configs = vec![cfg("Movies", true), cfg("TV", true)];
    merge_libraries(&mut table, &configs, &vec![7, 8]);
    assert_eq!(table.len(), 5);
    assert_eq!(
        table[0],
        LibraryRow {
            id: Some(1),
            name: "Movies".to_string(),
            from_config: true,
            path: "/media/Movies".to_string(),
            destination: "/out/Movies".to_string(),
            script_id: 7,
            enabled: true,
        }
    );
    assert!(!table[1].enabled);
    assert_eq!(table[2], row(3, "Mine", false, true));
    assert_eq!(table[3], row(4, "Old", false, true));
    assert_eq!(table[4].id, None);
    assert_eq!(table[4].name, "TV");
    assert!(table[4].from_config && table[4].enabled);
    assert_eq!(table[4].script_id, 8);
}

#[test]
fn merge_once_per_name() {
    let mut table = vec![];
    let configs = vec![cfg("Movies", true)];
    merge_libraries(&mut table, &configs, &vec![1]);
    merge_libraries(&mut table, &configs, &vec![1]);
    assert_eq!(table.iter().filter(|r| r.name == "Movies" && r.from_config).count(), 1);
    let dup = vec![cfg("A", true), cfg("A", false)];
    let mut t2 = vec![];
    merge_libraries(&mut t2, &dup, &vec![1, 2]);
    assert_eq!(t2.len(), 1);
    assert!(!t2[0].enabled);
    assert_eq!(t2[0].script_id, 2);
}

#[test]
fn job_variables_global_and_own() {
    let rows = vec![
        RowVariable { id: 1, key: "G".to_string(), value: Some("g".to_string()), library_id: None },
        RowVariable { id: 2, key: "A".to_string(), value: Some("a".to_string()), library_id: Some(5) },
        RowVariable { id: 3, key: "B".to_string(), value: Some("b".to_string()), library_id: Some(6) },
        RowVariable { id: 4, key: "N".to_string(), value: None, library_id: Some(5) },
    ];
    assert_eq!(
        variables_for(&rows, 5),
        vec![("G".to_string(), "g".to_string()), ("A".to_string(), "a".to_string())]
    );
}

#[test]
fn contract_joins_library_and_file() {
    let c = contract_from_rows(
        42,
        &"/media/movies".to_string(),
        &"2020/a.mkv".to_string(),
        &"dst_dir".to_string(),
        &"script".to_string(),
        vec![],
    );
    assert_eq!(c.id, 42);
    assert_eq!(c.src_file, "/media/movies/2020/a.mkv");
    assert_eq!(c.library_root, "/media/movies");
    assert_eq!(c.dst_dir, "dst_dir");
}

#[test]
fn manager_events_hold_queue_rows() {
    let e = ManagerEvent::JobQueue(vec![JobQueueEntry {
        file: "a.mkv".to_string(),
        library: "Movies".to_string(),
        worker: "w1".to_string(),
        status: "processing".to_string(),
        milestone: String::new(),
        progress: "10".to_string(),
        eta: "6".to_string(),
    }]);
    assert!(matches!(e, ManagerEvent::JobQueue(ref v) if v.len() == 1));
    assert_ne!(e, ManagerEvent::PeerList {});
}
