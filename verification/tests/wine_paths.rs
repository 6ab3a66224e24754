use hydra_saves::wine::add_trailing_slash;
use hydra_saves::wine::add_wine_prefix_to_windows_path;
use hydra_saves::wine::normalize_path;
use hydra_saves::wine::transform_ludusavi_backup_path_into_windows_path;

#[test]
fn normalize_pops_over_backslashes() {
    assert_eq!(normalize_path("C:\\a\\..\\b"), "C:/b");
}

#[test]
fn normalize_drops_dot_and_pops() {
    assert_eq!(normalize_path("a/./b/../c"), "a/c");
}

#[test]
fn normalize_cannot_pop_below_empty() {
    assert_eq!(normalize_path("../a"), "a");
}

#[test]
fn normalize_keeps_drive_prefix() {
    assert_eq!(normalize_path("C:\\users\\alice"), "C:/users/alice");
    assert_eq!(normalize_path("C:/users/../x"), "C:/x");
    assert_eq!(normalize_path("C:/../x"), "C:/x");
}

#[test]
fn add_trailing_slash_appends_once() {
    assert_eq!(add_trailing_slash("a/b"), "a/b/");
    assert_eq!(add_trailing_slash("a/b/"), "a/b/");
    assert_eq!(add_trailing_slash("a\\b\\"), "a\\b\\");
    assert_eq!(add_trailing_slash(""), "/");
}

#[test]
fn add_trailing_slash_idempotent_on_samples() {
    for p in ["", "x", "x/", "x\\", "a/b/c"] {
        let once = add_trailing_slash(p);
        let twice = add_trailing_slash(&once);
        assert_eq!(twice, once);
    }
}

#[test]
fn backup_path_to_windows_strips_prefix_and_drive() {
    let r = transform_ludusavi_backup_path_into_windows_path(
        "/prefix/drive_c/users/alice/save.dat",
        Some("/prefix"),
    );
    assert_eq!(r, "C:/users/alice/save.dat");
}

#[test]
fn backup_path_to_windows_without_prefix() {
    let r = transform_ludusavi_backup_path_into_windows_path("drive_c/game/save.dat", None);
    assert_eq!(r, "C:/game/save.dat");
}

#[test]
fn backup_path_to_windows_replaces_single_occurrence() {
    let r = transform_ludusavi_backup_path_into_windows_path("drive_c/a/drive_c/b", None);
    assert_eq!(r, "C:/a/drive_c/b");
}

#[test]
fn windows_path_to_host_joins_under_prefix() {
    let r = add_wine_prefix_to_windows_path("C:/users/alice", Some("/prefix"));
    assert_eq!(r, "/prefix/drive_c/users/alice");
}

#[test]
fn windows_path_to_host_identity_without_prefix() {
    let r = add_wine_prefix_to_windows_path("C:/users/alice", None);
    assert_eq!(r, "C:/users/alice");
}

#[test]
fn out_and_back_reconstructs_prefixed_path() {
    let p = "/prefix/drive_c/users/alice/Saves/slot1.sav";
    let w = transform_ludusavi_backup_path_into_windows_path(p, Some("/prefix"));
    let back = add_wine_prefix_to_windows_path(&w, Some("/prefix"));
    assert_eq!(back, p);
    let w2 = transform_ludusavi_backup_path_into_windows_path(&back, Some("/prefix"));
    let back2 = add_wine_prefix_to_windows_path(&w2, Some("/prefix"));
    assert_eq!(back2, back);
}
