use databend::error::ErrorCode;
use databend::raft_service::chunk_written;
use databend::raft_service::do_install_snapshot_v1;
use databend::raft_service::install_request;
use databend::raft_service::io_err_to_status;
use databend::raft_service::receive_binary_snapshot;
use databend::raft_service::receive_chunked_snapshot;
use databend::raft_service::receive_snapshot;
use databend::raft_service::remote_addr;
use databend::raft_service::snapshot_closed;
use databend::raft_service::temp_file_made;
use databend::raft_service::BinaryAction;
use databend::raft_service::BinaryEvent;
use databend::raft_service::ChunkAction;
use databend::raft_service::ChunkReply;
use databend::raft_service::InstallError;
use databend::raft_service::InstallSnapshotRequest;
use databend::raft_service::ReceiverV1;
use databend::raft_service::SnapshotChunk;
use databend::raft_service::SnapshotChunkRequest;
use databend::session_mgr::GracefulShutdown;
use databend::session_mgr::QueryConfig;
use databend::session_mgr::SessionManager;
use databend::session_mgr::SessionState;
use databend::session_mgr::SessionType;
use databend::session_mgr::SettingChange;
use databend::session_mgr::ShutdownAction;
use databend::session_mgr::ShutdownEvent;

fn text(s: &str) -> String {
    s.to_string()
}

#[test]
fn sessions_are_limited() {
    let mut m = SessionManager::<u8>::create(1);
    assert!(m.create_session(SessionType::MySQL).is_ok());
    assert!(m.try_add_session(text("a"), 1, SessionType::Other(3)).is_ok());
    match m.try_add_session(text("b"), 2, SessionType::Other(3)) {
        Err(ErrorCode::TooManyUserConnections(e)) => {
            assert_eq!(e, "Current active sessions (1) has exceeded the max_active_sessions limit (1)")
        }
        other => panic!("{:?}", other),
    }
    assert!(matches!(m.create_session(SessionType::Other(1)), Err(ErrorCode::TooManyUserConnections(_))));
    assert!(m.create_session(SessionType::Dummy).is_ok());
    assert!(m.try_add_session(text("c"), 3, SessionType::FlightRPC).is_ok());
    assert_eq!(m.get_session_by_id(&text("c")), None);
    assert_eq!(m.get_session_by_id(&text("a")), Some(&1));
    assert_eq!(m.destroy_session(&text("a")), 0);
    assert_eq!(m.get_session_by_id(&text("a")), None);
}

#[test]
fn mysql_connections_are_numbered_from_nine() {
    let mut m = SessionManager::<u8>::create(4);
    let first = m.seed_session(SessionType::MySQL);
    let second = m.seed_with_id(SessionType::MySQL, text("two"));
    assert_eq!((first.mysql_conn_id, second.mysql_conn_id), (Some(9), Some(10)));
    assert_eq!(m.seed_session(SessionType::Dummy).mysql_conn_id, None);
    let id = first.id.clone();
    m.create_with_settings(first, 1).unwrap();
    m.create_with_settings(second, 2).unwrap();
    assert_eq!(m.get_id_by_mysql_conn_id(&Some(9)), Some(id.clone()));
    assert_eq!(m.get_id_by_mysql_conn_id(&Some(10)), Some(text("two")));
    assert_eq!(m.destroy_session(&id), 1);
    assert_eq!(m.get_id_by_mysql_conn_id(&Some(9)), None);
    assert_eq!(m.get_id_by_mysql_conn_id(&Some(10)), Some(text("two")));
}

#[test]
fn session_ids_are_random() {
    let mut m = SessionManager::<u8>::create(4);
    let a = m.seed_session(SessionType::Other(0)).id;
    let b = m.seed_session(SessionType::Other(0)).id;
    assert_ne!(a, b);
    assert_eq!(a.len(), 36);
    assert_eq!(a.split('-').map(|g| g.len()).collect::<Vec<_>>(), vec![8, 4, 4, 4, 12]);
    assert_eq!(&a[14..15], "4");
    assert!(a.chars().all(|c| c == '-' || c.is_ascii_digit() || ('a'..='f').contains(&c)));
}

#[test]
fn only_dummies_are_upgraded() {
    let mut m = SessionManager::<u8>::create(4);
    let mut typ = SessionType::Dummy;
    m.try_upgrade_session(text("a"), 1, &mut typ, SessionType::MySQL).unwrap();
    assert_eq!(typ, SessionType::MySQL);
    match m.try_upgrade_session(text("a"), 1, &mut typ, SessionType::Other(1)) {
        Err(ErrorCode::Internal(e)) => assert_eq!(e, "bug: can only upgrade Dummy session"),
        other => panic!("{:?}", other),
    }
    assert!(!m.destroy_idle_sessions(&vec![text("b")]));
    assert!(m.destroy_idle_sessions(&vec![text("a")]));
}

#[test]
fn sessions_of_users_are_counted() {
    let m = SessionManager::<u8>::create(4);
    let s = |u, q| SessionState { is_user_session: u, is_query: q };
    let status = m.get_current_session_status(&vec![s(true, true), s(false, true), s(true, false)]);
    assert_eq!((status.active_sessions_count, status.running_queries_count), (2, 1));
    let changes = SessionManager::<u8>::load_config_changes(&QueryConfig {
        parquet_fast_read_bytes: None,
        max_storage_io_requests: Some(8),
        databend_enterprise_license: Some(text("key")),
    });
    assert_eq!(changes.len(), 2);
    assert!(matches!(changes[0], SettingChange::MaxStorageIoRequests(8)));
    assert!(matches!(&changes[1], SettingChange::EnterpriseLicense(k) if k == "key"));
}

#[test]
fn shutdown_waits_no_longer_than_its_timeout() {
    let (mut s, mut action) = GracefulShutdown::graceful_shutdown(Some(2_500_000_000));
    let mut waits = 0;
    while action != ShutdownAction::ForceKill {
        assert_eq!(action, ShutdownAction::DestroyIdle);
        assert_eq!(s.next(ShutdownEvent::IdleDestroyed(false)), ShutdownAction::Sleep);
        action = s.next(ShutdownEvent::Slept);
        waits += 1;
    }
    assert_eq!(waits, 3);
    let (mut s, _) = GracefulShutdown::graceful_shutdown(Some(9_000_000_000));
    assert_eq!(s.next(ShutdownEvent::IdleDestroyed(true)), ShutdownAction::Return);
    assert_eq!(s.next(ShutdownEvent::Signalled), ShutdownAction::ForceKill);
    assert_eq!(GracefulShutdown::graceful_shutdown(None).1, ShutdownAction::ForceKill);
}

fn chunk(id: &str, offset: u64, data: &[u8], done: bool) -> InstallSnapshotRequest {
    install_request(text(id), SnapshotChunk { offset, data: data.to_vec(), done })
}

fn mismatch(r: Result<ChunkAction, InstallError>) -> (u64, u64) {
    match r {
        Err(InstallError::Mismatch(m)) => (m.expect.offset, m.got.offset),
        other => panic!("{:?}", other),
    }
}

#[test]
fn snapshots_are_received_without_gaps() {
    let mut receiver: Option<ReceiverV1> = None;
    assert_eq!(mismatch(receive_snapshot(&receiver, &chunk("s", 4, &[1], false))), (0, 4));
    let first = chunk("s", 0, &[1, 2], false);
    assert_eq!(receive_snapshot(&receiver, &first).unwrap(), ChunkAction::NewTempFile);
    temp_file_made(&mut receiver, &first, Ok(text("/tmp/x"))).unwrap();
    assert!(chunk_written(&mut receiver, &first, Ok(())).unwrap().is_none());
    assert_eq!(mismatch(receive_snapshot(&receiver, &chunk("s", 3, &[9], false))), (2, 3));
    let last = chunk("s", 2, &[3], true);
    assert_eq!(receive_snapshot(&receiver, &last).unwrap(), ChunkAction::Write);
    assert!(matches!(
        chunk_written(&mut receiver, &last, Err(text("full"))),
        Err(InstallError::Storage { message, .. }) if message == "full"
    ));
    let done = chunk_written(&mut receiver, &last, Ok(())).unwrap().unwrap();
    assert!(receiver.is_none());
    assert_eq!(snapshot_closed(&text("s"), done, Ok(())).unwrap(), "/tmp/x");
    // another snapshot starts anew
    let other = chunk("t", 0, &[], false);
    assert_eq!(receive_snapshot(&receiver, &other).unwrap(), ChunkAction::NewTempFile);
    assert!(temp_file_made(&mut receiver, &other, Err(text("no"))).is_err());
    assert!(receiver.is_none());
    let r = ReceiverV1::new(text("t"), text("p"));
    assert!(matches!(
        snapshot_closed(&text("t"), r, Err(text("sync"))),
        Err(InstallError::Storage { snapshot_id, .. }) if snapshot_id == "t"
    ));
}

#[test]
fn raft_requests_are_checked() {
    let none = SnapshotChunkRequest { rpc_meta: text("m"), chunk: None };
    match do_install_snapshot_v1(none) {
        Err(s) => assert_eq!((s.code, s.message.as_str()), (3, "SnapshotChunkRequest.chunk is None")),
        other => panic!("{:?}", other),
    }
    assert!(matches!(receive_chunked_snapshot(1, None), ChunkReply::Vote(1)));
    assert!(matches!(receive_chunked_snapshot(1, Some(text("p"))), ChunkReply::Install(p) if p == "p"));
    assert!(matches!(receive_binary_snapshot::<u8>(BinaryEvent::Received(None)), BinaryAction::Next));
    assert!(matches!(receive_binary_snapshot(BinaryEvent::Received(Some(4))), BinaryAction::Return(Ok(4))));
    match receive_binary_snapshot::<u8>(BinaryEvent::Closed(text("2 chunks"))) {
        BinaryAction::Return(Err(s)) => {
            assert_eq!((s.code, s.message.as_str()), (3, "snapshot stream is closed without finishing: 2 chunks"))
        }
        other => panic!("{:?}", other),
    }
    assert_eq!(remote_addr(None), "unknown address");
    assert_eq!(remote_addr(Some(text("1.2.3.4"))), "1.2.3.4");
    assert_eq!(io_err_to_status(true, text("m")).code, 3);
    assert_eq!(io_err_to_status(false, text("m")).code, 13);
}

#[test]
fn only_sessions_that_are_there_are_told_of() {
    assert_eq!(SessionManager::<u8>::processes_info(vec![Some(1), None, Some(3)]), [1, 3]);
    let p = SessionManager::<u8>::get_queries_profile(vec![
        Some((text("q1"), 1)),
        None,
        Some((text("q2"), 2)),
        Some((text("q1"), 3)),
    ]);
    assert_eq!((p.len(), p.get(&text("q1")), p.get(&text("q2"))), (2, Some(&3), Some(&2)));
}
