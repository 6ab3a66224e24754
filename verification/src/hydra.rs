//! Backup manifests and the restore planner: for every archived file
//! key the planner computes the staged source path and the host
//! destination path that the relocation step must move it to.

use vstd::prelude::*;
use vstd::string::StrSliceExecFns;
use vstd::string::StringExecFns;

use crate::strutil::{replace_first, spec_replace_first};
use crate::wine::{
    add_trailing_slash, add_wine_prefix_to_windows_path, spec_add_trailing_slash,
    spec_backup_path_to_windows, spec_windows_path_to_host,
    transform_ludusavi_backup_path_into_windows_path,
};

verus! {

/// Metadata recorded for an archived file. Nothing in it is needed
/// to restore; the presence of the file key is all that matters.
pub struct FileMetadata {}

/// One backup inside a manifest: its archived files, keyed by
/// archived relative path, in manifest order.
pub struct LudusaviBackup {
    pub files: Vec<(String, FileMetadata)>,
}

/// A backup tool's manifest: drive-letter tokens to archived-path
/// tokens, and the ordered backups.
pub struct BackupManifest {
    /// Drive-letter token (e.g. `C:`) to archived token (e.g.
    /// `drive_c`), applied in order, one substitution per drive.
    pub drives: Vec<(String, String)>,
    pub backups: Vec<LudusaviBackup>,
}

/// The mathematical model of a manifest.
pub struct BackupManifestSpec {
    pub drives: Seq<(Seq<char>, Seq<char>)>,
    pub backups: Seq<Seq<Seq<char>>>,
}

impl View for LudusaviBackup {
    type V = Seq<Seq<char>>;

    open spec fn view(&self) -> Seq<Seq<char>> {
        self.files@.map_values(|p: (String, FileMetadata)| p.0@)
    }
}

impl View for BackupManifest {
    type V = BackupManifestSpec;

    open spec fn view(&self) -> BackupManifestSpec {
        BackupManifestSpec {
            drives: self.drives@.map_values(|p: (String, String)| (p.0@, p.1@)),
            backups: self.backups@.map_values(|b: LudusaviBackup| b@),
        }
    }
}

/// One planned relocation: move the staged file at `source` to the
/// host path `destination`, overwriting what is there.
pub struct RestoreMove {
    pub source: String,
    pub destination: String,
}

impl View for RestoreMove {
    type V = (Seq<char>, Seq<char>);

    open spec fn view(&self) -> (Seq<char>, Seq<char>) {
        (self.source@, self.destination@)
    }
}

/// The views of a sequence of planned moves.
pub open spec fn move_views(ms: Seq<RestoreMove>) -> Seq<(Seq<char>, Seq<char>)> {
    ms.map_values(|m: RestoreMove| m@)
}

/// Every drive substitution applied to a file key, in order: for
/// each drive, at most one occurrence of the archived token becomes
/// the drive-letter token.
pub open spec fn spec_apply_drives(key: Seq<char>, drives: Seq<(Seq<char>, Seq<char>)>) -> Seq<
    char,
>
    decreases drives.len(),
{
    if drives.len() == 0 {
        key
    } else {
        spec_apply_drives(
            spec_replace_first(key, drives[0].1, drives[0].0),
            drives.drop_first(),
        )
    }
}

/// The planned move for one archived file key: the source is the
/// key with drive substitutions applied, under the game's staged
/// backup directory; the destination is the key translated to an
/// emulated-Windows path through the artifact's prefix, the backup's
/// home-directory token replaced by the host-mapped profile
/// directory, and the public-profile directory replaced by its
/// host-mapped equivalent.
pub open spec fn spec_move_for_key(
    key: Seq<char>,
    game_dir: Seq<char>,
    drives: Seq<(Seq<char>, Seq<char>)>,
    home_dir: Seq<char>,
    user_profile: Seq<char>,
    wine_prefix: Option<Seq<char>>,
    artifact_prefix: Option<Seq<char>>,
) -> (Seq<char>, Seq<char>) {
    (
        spec_add_trailing_slash(game_dir) + spec_apply_drives(key, drives),
        spec_replace_first(
            spec_replace_first(
                spec_backup_path_to_windows(key, artifact_prefix),
                home_dir,
                spec_windows_path_to_host(user_profile, wine_prefix),
            ),
            "C:/users/Public"@,
            spec_windows_path_to_host("C:/users/Public"@, wine_prefix),
        ),
    )
}

/// The planned moves for the file keys of one backup, in order.
pub open spec fn spec_moves_for_keys(
    keys: Seq<Seq<char>>,
    game_dir: Seq<char>,
    drives: Seq<(Seq<char>, Seq<char>)>,
    home_dir: Seq<char>,
    user_profile: Seq<char>,
    wine_prefix: Option<Seq<char>>,
    artifact_prefix: Option<Seq<char>>,
) -> Seq<(Seq<char>, Seq<char>)> {
    keys.map_values(
        |k: Seq<char>|
            spec_move_for_key(
                k,
                game_dir,
                drives,
                home_dir,
                user_profile,
                wine_prefix,
                artifact_prefix,
            ),
    )
}

/// The planned moves of all backups, in manifest order.
pub open spec fn spec_plan_backups(
    backups: Seq<Seq<Seq<char>>>,
    game_dir: Seq<char>,
    drives: Seq<(Seq<char>, Seq<char>)>,
    home_dir: Seq<char>,
    user_profile: Seq<char>,
    wine_prefix: Option<Seq<char>>,
    artifact_prefix: Option<Seq<char>>,
) -> Seq<(Seq<char>, Seq<char>)>
    decreases backups.len(),
{
    if backups.len() == 0 {
        Seq::empty()
    } else {
        spec_moves_for_keys(
            backups[0],
            game_dir,
            drives,
            home_dir,
            user_profile,
            wine_prefix,
            artifact_prefix,
        ) + spec_plan_backups(
            backups.drop_first(),
            game_dir,
            drives,
            home_dir,
            user_profile,
            wine_prefix,
            artifact_prefix,
        )
    }
}

/// The whole restore plan of a manifest.
pub open spec fn spec_restore_plan(
    m: BackupManifestSpec,
    game_dir: Seq<char>,
    home_dir: Seq<char>,
    user_profile: Seq<char>,
    wine_prefix: Option<Seq<char>>,
    artifact_prefix: Option<Seq<char>>,
) -> Seq<(Seq<char>, Seq<char>)> {
    spec_plan_backups(
        m.backups,
        game_dir,
        m.drives,
        home_dir,
        user_profile,
        wine_prefix,
        artifact_prefix,
    )
}

/// The view of an optional path argument.
pub open spec fn opt_view(p: Option<&str>) -> Option<Seq<char>> {
    match p {
        Some(s) => Some(s@),
        None => None,
    }
}

/// Computes the source/destination pair of every archived file of
/// every backup in the manifest, in manifest order. The relocation
/// itself (create directories, overwrite, move) is the caller's to
/// perform, one pair at a time.
pub fn plan_ludusavi_restore(
    manifest: &BackupManifest,
    game_backup_path: &str,
    home_dir: &str,
    user_profile_path: &str,
    wine_prefix_path: Option<&str>,
    artifact_wine_prefix_path: Option<&str>,
) -> (r: Vec<RestoreMove>)
    ensures
        move_views(r@) == spec_restore_plan(
            manifest@,
            game_backup_path@,
            home_dir@,
            user_profile_path@,
            opt_view(wine_prefix_path),
            opt_view(artifact_wine_prefix_path),
        ),
{
    let ghost gdrives = manifest@.drives;
    let ghost gbackups = manifest@.backups;
    let ghost wpv = opt_view(wine_prefix_path);
    let ghost apv = opt_view(artifact_wine_prefix_path);
    let host_profile = add_wine_prefix_to_windows_path(user_profile_path, wine_prefix_path);
    let host_public = add_wine_prefix_to_windows_path("C:/users/Public", wine_prefix_path);
    let game_dir_sep = add_trailing_slash(game_backup_path);
    let mut r: Vec<RestoreMove> = Vec::new();
    let mut b: usize = 0;
    proof {
        assert(gbackups.skip(0) =~= gbackups);
        assert(move_views(r@) + spec_plan_backups(
            gbackups,
            game_backup_path@,
            gdrives,
            home_dir@,
            user_profile_path@,
            wpv,
            apv,
        ) =~= spec_plan_backups(
            gbackups,
            game_backup_path@,
            gdrives,
            home_dir@,
            user_profile_path@,
            wpv,
            apv,
        ));
    }
    while b < manifest.backups.len()
        invariant
            b <= manifest.backups@.len(),
            gdrives == manifest@.drives,
            gbackups == manifest@.backups,
            gbackups.len() == manifest.backups@.len(),
            wpv == opt_view(wine_prefix_path),
            apv == opt_view(artifact_wine_prefix_path),
            host_profile@ == spec_windows_path_to_host(user_profile_path@, wpv),
            host_public@ == spec_windows_path_to_host("C:/users/Public"@, wpv),
            game_dir_sep@ == spec_add_trailing_slash(game_backup_path@),
            spec_restore_plan(
                manifest@,
                game_backup_path@,
                home_dir@,
                user_profile_path@,
                wpv,
                apv,
            ) == move_views(r@) + spec_plan_backups(
                gbackups.skip(b as int),
                game_backup_path@,
                gdrives,
                home_dir@,
                user_profile_path@,
                wpv,
                apv,
            ),
        decreases manifest.backups@.len() - b,
    {
        let backup = &manifest.backups[b];
        let ghost gkeys = backup@;
        let ghost pre_moves = move_views(r@);
        proof {
            assert(gbackups[b as int] == manifest.backups@[b as int]@);
            assert(gbackups.skip(b as int)[0] == gbackups[b as int]);
            assert(gbackups.skip(b as int).drop_first() =~= gbackups.skip(b + 1));
            assert(gkeys.take(0) =~= Seq::<Seq<char>>::empty());
            assert(spec_moves_for_keys(
                gkeys.take(0),
                game_backup_path@,
                gdrives,
                home_dir@,
                user_profile_path@,
                wpv,
                apv,
            ) =~= Seq::<(Seq<char>, Seq<char>)>::empty());
            assert(pre_moves + Seq::<(Seq<char>, Seq<char>)>::empty() =~= pre_moves);
        }
        let mut k: usize = 0;
        while k < backup.files.len()
            invariant
                k <= backup.files@.len(),
                gkeys == backup@,
                gkeys.len() == backup.files@.len(),
                gdrives == manifest@.drives,
                wpv == opt_view(wine_prefix_path),
                apv == opt_view(artifact_wine_prefix_path),
                host_profile@ == spec_windows_path_to_host(user_profile_path@, wpv),
                host_public@ == spec_windows_path_to_host("C:/users/Public"@, wpv),
                game_dir_sep@ == spec_add_trailing_slash(game_backup_path@),
                move_views(r@) == pre_moves + spec_moves_for_keys(
                    gkeys.take(k as int),
                    game_backup_path@,
                    gdrives,
                    home_dir@,
                    user_profile_path@,
                    wpv,
                    apv,
                ),
            decreases backup.files@.len() - k,
        {
            let key: &str = backup.files[k].0.as_str();
            let ghost r_head = r@;
            proof {
                assert(gkeys[k as int] == backup.files@[k as int].0@);
            }
            let mut with_drives: String = key.to_owned();
            let mut d: usize = 0;
            proof {
                assert(gdrives.skip(0) =~= gdrives);
            }
            while d < manifest.drives.len()
                invariant
                    d <= manifest.drives@.len(),
                    gdrives == manifest@.drives,
                    gdrives.len() == manifest.drives@.len(),
                    spec_apply_drives(key@, gdrives) == spec_apply_drives(
                        with_drives@,
                        gdrives.skip(d as int),
                    ),
                decreases manifest.drives@.len() - d,
            {
                proof {
                    assert(gdrives[d as int] == (manifest.drives@[d as int].0@,
                    manifest.drives@[d as int].1@));
                    assert(gdrives.skip(d as int)[0] == gdrives[d as int]);
                    assert(gdrives.skip(d as int).drop_first() =~= gdrives.skip(d + 1));
                }
                with_drives = replace_first(
                    with_drives.as_str(),
                    manifest.drives[d].1.as_str(),
                    manifest.drives[d].0.as_str(),
                );
                d += 1;
            }
            proof {
                assert(gdrives.skip(d as int) =~= Seq::<(Seq<char>, Seq<char>)>::empty());
            }
            let source = game_dir_sep.clone().concat(with_drives.as_str());
            let windows = transform_ludusavi_backup_path_into_windows_path(
                key,
                artifact_wine_prefix_path,
            );
            let with_home = replace_first(windows.as_str(), home_dir, host_profile.as_str());
            let destination = replace_first(
                with_home.as_str(),
                "C:/users/Public",
                host_public.as_str(),
            );
            let ghost mv = spec_move_for_key(
                gkeys[k as int],
                game_backup_path@,
                gdrives,
                home_dir@,
                user_profile_path@,
                wpv,
                apv,
            );
            proof {
                assert(source@ == mv.0);
                assert(destination@ == mv.1);
            }
            r.push(RestoreMove { source, destination });
            proof {
                assert(r@ == r_head.push(r@.last()));
                assert(r@.last()@.0 == mv.0 && r@.last()@.1 == mv.1);
                assert(r@.last()@ == mv);
                assert(move_views(r@) =~= move_views(r_head).push(mv));
                assert(gkeys.take(k + 1) =~= gkeys.take(k as int).push(gkeys[k as int]));
                assert(spec_moves_for_keys(
                    gkeys.take(k + 1),
                    game_backup_path@,
                    gdrives,
                    home_dir@,
                    user_profile_path@,
                    wpv,
                    apv,
                ) =~= spec_moves_for_keys(
                    gkeys.take(k as int),
                    game_backup_path@,
                    gdrives,
                    home_dir@,
                    user_profile_path@,
                    wpv,
                    apv,
                ).push(mv));
                assert(move_views(r@) =~= pre_moves + spec_moves_for_keys(
                    gkeys.take(k + 1),
                    game_backup_path@,
                    gdrives,
                    home_dir@,
                    user_profile_path@,
                    wpv,
                    apv,
                ));
            }
            k += 1;
        }
        proof {
            assert(gkeys.take(k as int) =~= gkeys);
            assert((pre_moves + spec_moves_for_keys(
                gkeys,
                game_backup_path@,
                gdrives,
                home_dir@,
                user_profile_path@,
                wpv,
                apv,
            )) + spec_plan_backups(
                gbackups.skip(b + 1),
                game_backup_path@,
                gdrives,
                home_dir@,
                user_profile_path@,
                wpv,
                apv,
            ) =~= pre_moves + (spec_moves_for_keys(
                gkeys,
                game_backup_path@,
                gdrives,
                home_dir@,
                user_profile_path@,
                wpv,
                apv,
            ) + spec_plan_backups(
                gbackups.skip(b + 1),
                game_backup_path@,
                gdrives,
                home_dir@,
                user_profile_path@,
                wpv,
                apv,
            )));
        }
        b += 1;
    }
    proof {
        assert(gbackups.skip(b as int) =~= Seq::<Seq<Seq<char>>>::empty());
        assert(move_views(r@) + Seq::<(Seq<char>, Seq<char>)>::empty() =~= move_views(r@));
    }
    r
}

} // verus!
