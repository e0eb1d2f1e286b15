use clipper::paths::{default_db_path, socket_path};
use clipper::singleton::{Outcome, Phase, Step};
use std::path::PathBuf;

fn bytes(s: &str) -> Option<Vec<u8>> {
    Some(s.as_bytes().to_vec())
}

fn path(p: Vec<u8>) -> String {
    String::from_utf8(p).unwrap()
}

#[test]
fn the_database_is_in_the_data_directory() {
    assert_eq!(path(default_db_path(bytes("/data"), bytes("/home/u"))), "/data/clipper/clips.redb");
    assert_eq!(
        path(default_db_path(None, bytes("/home/u"))),
        "/home/u/.local/share/clipper/clips.redb"
    );
    assert_eq!(path(default_db_path(None, None)), ".local/share/clipper/clips.redb");
}

#[test]
fn paths_are_joined_as_the_standard_library_joins_them() {
    for base in ["", "/", "/data", "/data/", "rel", "rel//"] {
        let expected = PathBuf::from(base).join("clipper").join("clips.redb");
        assert_eq!(path(default_db_path(bytes(base), None)), expected.to_str().unwrap());
        let expected = PathBuf::from(base).join("clipper.sock");
        assert_eq!(path(socket_path(bytes(base), None)), expected.to_str().unwrap());
    }
}

#[test]
fn the_socket_is_in_the_runtime_directory_or_in_tmp() {
    assert_eq!(path(socket_path(bytes("/run/user/1"), bytes("u"))), "/run/user/1/clipper.sock");
    assert_eq!(path(socket_path(None, bytes("u"))), "/tmp/clipper-u.sock");
    assert_eq!(path(socket_path(None, None)), "/tmp/clipper-default.sock");
}

#[test]
fn a_second_instance_asks_for_focus_and_quits() {
    let (phase, step) = Phase::Connecting.advance(Outcome::Connected);
    assert_eq!(step, Step::RequestFocus);
    assert_eq!(phase, Phase::Secondary);
    assert!(!phase.is_primary());
}

#[test]
fn a_first_instance_binds_and_listens() {
    let (phase, step) = Phase::Connecting.advance(Outcome::NotConnected);
    assert_eq!(step, Step::RemoveSocketAndBind);
    assert!(!phase.is_primary());
    let (phase, step) = phase.advance(Outcome::Bound);
    assert_eq!(step, Step::StartListening);
    assert!(phase.is_primary());
    let (phase, step) = phase.advance(Outcome::Called { delivered: true });
    assert_eq!((phase, step), (Phase::Listening, Step::Listen));
    let (gone, step) = phase.advance(Outcome::Called { delivered: false });
    assert_eq!((gone, step), (Phase::Unreachable, Step::StopListening));
    let (failed, step) = phase.advance(Outcome::ListenFailed);
    assert_eq!((failed, step), (Phase::Unreachable, Step::StopListening));
    assert!(failed.is_primary());
}

#[test]
fn an_instance_without_a_socket_runs() {
    let (phase, _) = Phase::Connecting.advance(Outcome::NotConnected);
    let (phase, step) = phase.advance(Outcome::NotBound);
    assert_eq!(step, Step::ReportUnbound);
    assert!(phase.is_primary());
    assert_eq!(phase.advance(Outcome::Connected), (Phase::Unreachable, Step::Nothing));
}
