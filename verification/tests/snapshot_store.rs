use hydra_saves::snapshot::get_auth;
use hydra_saves::snapshot::Snapshot;
use rusty_leveldb::Options;
use rusty_leveldb::DB;

fn build_store(dir: &std::path::Path, pairs: &[(&[u8], &[u8])]) -> String {
    let store_path = dir.join("hydra-db");
    let mut db = DB::open(&store_path, Options::default()).unwrap();
    for (k, v) in pairs {
        db.put(k, v).unwrap();
    }
    db.flush().unwrap();
    db.close().unwrap();
    store_path.to_str().unwrap().to_string()
}

#[test]
fn auth_token_round_trips_through_snapshot() {
    let dir = tempfile::tempdir().unwrap();
    let store = build_store(dir.path(), &[(b"auth", b"token-for-tests")]);
    let token = get_auth(&store).unwrap();
    assert_eq!(token, "token-for-tests");
}

#[test]
fn absent_auth_key_yields_empty_token() {
    let dir = tempfile::tempdir().unwrap();
    let store = build_store(dir.path(), &[(b"!games:1", b"{}")]);
    let token = get_auth(&store).unwrap();
    assert_eq!(token, "");
}

#[test]
fn get_returns_stored_value() {
    let dir = tempfile::tempdir().unwrap();
    let store = build_store(dir.path(), &[(b"auth", b"t"), (b"other", b"x")]);
    let mut snapshot = Snapshot::open(&store).unwrap();
    assert_eq!(snapshot.get(b"other"), Some(b"x".to_vec()));
    assert_eq!(snapshot.get(b"missing"), None);
    snapshot.close().unwrap();
}

#[test]
fn scan_prefix_filters_and_orders() {
    let dir = tempfile::tempdir().unwrap();
    let store = build_store(
        dir.path(),
        &[
            (b"!games:b", b"two"),
            (b"auth", b"t"),
            (b"!games:a", b"one"),
            (b"zzz", b"last"),
        ],
    );
    let mut snapshot = Snapshot::open(&store).unwrap();
    let games = snapshot.scan_prefix(b"!games").unwrap();
    snapshot.close().unwrap();
    assert_eq!(games.len(), 2);
    assert_eq!(games[0].0, b"!games:a".to_vec());
    assert_eq!(games[0].1, b"one".to_vec());
    assert_eq!(games[1].0, b"!games:b".to_vec());
    assert_eq!(games[1].1, b"two".to_vec());
}

#[test]
fn two_snapshots_of_same_store_agree() {
    let dir = tempfile::tempdir().unwrap();
    let store = build_store(
        dir.path(),
        &[
            (b"!games:1", b"{\"title\":\"a\"}"),
            (b"!games:2", b"{\"title\":\"b\"}"),
            (b"auth", b"t"),
        ],
    );
    let mut first = Snapshot::open(&store).unwrap();
    let scan_one = first.scan_prefix(b"!games").unwrap();
    first.close().unwrap();
    let mut second = Snapshot::open(&store).unwrap();
    let scan_two = second.scan_prefix(b"!games").unwrap();
    second.close().unwrap();
    assert_eq!(scan_one, scan_two);
}

#[test]
fn open_fails_on_missing_store() {
    let dir = tempfile::tempdir().unwrap();
    let missing = dir.path().join("no-such-store");
    let r = Snapshot::open(missing.to_str().unwrap());
    assert!(r.is_err());
}
