//! Path translation between archived backup paths, emulated-Windows
//! paths and host paths under a compatibility prefix, and path
//! normalization for registry-derived profile directories.

use vstd::prelude::*;
use vstd::string::StrSliceExecFns;
use vstd::string::StringExecFns;

use crate::strutil::{
    lemma_find_at_start, replace_first, spec_replace_first, spec_split, spec_strip_prefix,
    split_chars, str_eq, strip_prefix_once, views_of,
};

verus! {

/// A path ends in a separator when its last character is `/` or `\`.
pub open spec fn spec_ends_in_separator(p: Seq<char>) -> bool {
    p.len() > 0 && (p.last() == '/' || p.last() == '\\')
}

/// What `add_trailing_slash` returns: the path itself when it already
/// ends in a separator, otherwise the path with `/` appended.
pub open spec fn spec_add_trailing_slash(p: Seq<char>) -> Seq<char> {
    if spec_ends_in_separator(p) {
        p
    } else {
        p.push('/')
    }
}

/// Appends `/` unless the path already ends in `/` or `\`.
pub fn add_trailing_slash(path: &str) -> (r: String)
    ensures
        r@ == spec_add_trailing_slash(path@),
{
    let n = path.unicode_len();
    if n > 0 {
        let last = path.get_char(n - 1);
        if last == '/' || last == '\\' {
            return path.to_owned();
        }
    }
    let r = path.to_owned().concat("/");
    proof {
        reveal_strlit("/");
        assert(r@ =~= spec_add_trailing_slash(path@));
    }
    r
}

/// Appending a trailing separator twice is the same as appending it
/// once: the first application always yields a path that ends in `/`.
pub proof fn lemma_add_trailing_slash_idempotent(p: Seq<char>)
    ensures
        spec_add_trailing_slash(spec_add_trailing_slash(p)) == spec_add_trailing_slash(p),
{
    assert(spec_add_trailing_slash(p).last() == '/' || spec_add_trailing_slash(p).last() == '\\');
}

/// What translating an archived backup path to an emulated-Windows
/// path yields: one leading occurrence of the prefix root (with a
/// trailing separator) is stripped, then the first occurrence of the
/// archived drive token `drive_c` becomes the drive letter `C:`.
pub open spec fn spec_backup_path_to_windows(p: Seq<char>, prefix: Option<Seq<char>>) -> Seq<
    char,
> {
    let stripped = match prefix {
        Some(pr) => spec_strip_prefix(p, spec_add_trailing_slash(pr)),
        None => p,
    };
    spec_replace_first(stripped, "drive_c"@, "C:"@)
}

/// Translates an archived backup path into an emulated-Windows path.
pub fn transform_ludusavi_backup_path_into_windows_path(
    backup_path: &str,
    wine_prefix_path: Option<&str>,
) -> (r: String)
    ensures
        r@ == spec_backup_path_to_windows(
            backup_path@,
            match wine_prefix_path {
                Some(p) => Some(p@),
                None => None,
            },
        ),
{
    match wine_prefix_path {
        Some(prefix) => {
            let normalized_prefix = add_trailing_slash(prefix);
            let stripped = strip_prefix_once(backup_path, normalized_prefix.as_str());
            replace_first(stripped, "drive_c", "C:")
        },
        None => replace_first(backup_path, "drive_c", "C:"),
    }
}

/// What joining an emulated-Windows path under a prefix root yields:
/// the first occurrence of the drive letter `C:` becomes the archived
/// drive token `drive_c`, and the result is appended to the prefix
/// root with a single `/` separator. Without a prefix root the path
/// is already a host path and is returned unchanged.
pub open spec fn spec_windows_path_to_host(w: Seq<char>, prefix: Option<Seq<char>>) -> Seq<char> {
    match prefix {
        Some(pr) => spec_add_trailing_slash(pr) + spec_replace_first(w, "C:"@, "drive_c"@),
        None => w,
    }
}

/// Places an emulated-Windows path under a prefix root as a host path.
pub fn add_wine_prefix_to_windows_path(windows_path: &str, wine_prefix_path: Option<&str>) -> (r:
    String)
    ensures
        r@ == spec_windows_path_to_host(
            windows_path@,
            match wine_prefix_path {
                Some(p) => Some(p@),
                None => None,
            },
        ),
{
    match wine_prefix_path {
        Some(prefix) => {
            let adjusted = replace_first(windows_path, "C:", "drive_c");
            add_trailing_slash(prefix).concat(adjusted.as_str())
        },
        None => windows_path.to_owned(),
    }
}

/// Translating an archived path of the form
/// `<prefix>/drive_c/<rest>` out to an emulated-Windows path and back
/// under the same prefix reconstructs the path exactly, so the
/// out-and-back translation is idempotent on such paths.
pub proof fn lemma_prefix_round_trip(prefix: Seq<char>, rest: Seq<char>)
    ensures
        spec_windows_path_to_host(
            spec_backup_path_to_windows(
                spec_add_trailing_slash(prefix) + "drive_c"@ + rest,
                Some(prefix),
            ),
            Some(prefix),
        ) == spec_add_trailing_slash(prefix) + "drive_c"@ + rest,
{
    reveal_strlit("drive_c");
    reveal_strlit("C:");
    let sep = spec_add_trailing_slash(prefix);
    let p = sep + "drive_c"@ + rest;
    assert(p.subrange(0, sep.len() as int) =~= sep);
    let stripped = spec_strip_prefix(p, sep);
    assert(stripped =~= "drive_c"@ + rest);
    assert(stripped.subrange(0, 7) =~= "drive_c"@);
    lemma_find_at_start(stripped, "drive_c"@);
    let w = spec_replace_first(stripped, "drive_c"@, "C:"@);
    assert(w =~= "C:"@ + rest);
    assert(w.subrange(0, 2) =~= "C:"@);
    lemma_find_at_start(w, "C:"@);
    let back = spec_replace_first(w, "C:"@, "drive_c"@);
    assert(back =~= "drive_c"@ + rest);
    assert(sep + back =~= p);
}

/// A path component is a drive prefix when it ends in `:`.
pub open spec fn spec_is_drive(part: Seq<char>) -> bool {
    part.len() > 0 && part.last() == ':'
}

/// Folds the path components after the first over the retained stack:
/// empty and `.` components are dropped, `..` pops the last retained
/// component (and is a no-op on an empty stack), anything else is
/// appended.
pub open spec fn spec_fold_components(acc: Seq<Seq<char>>, parts: Seq<Seq<char>>) -> Seq<
    Seq<char>,
>
    decreases parts.len(),
{
    if parts.len() == 0 {
        acc
    } else {
        let part = parts[0];
        let acc2 = if part.len() == 0 || part == "."@ {
            acc
        } else if part == ".."@ {
            if acc.len() > 0 {
                acc.drop_last()
            } else {
                acc
            }
        } else {
            acc.push(part)
        };
        spec_fold_components(acc2, parts.drop_first())
    }
}

/// The retained components joined by `/`.
pub open spec fn spec_join_slash(parts: Seq<Seq<char>>) -> Seq<char>
    decreases parts.len(),
{
    if parts.len() == 0 {
        Seq::empty()
    } else if parts.len() == 1 {
        parts[0]
    } else {
        parts[0] + seq!['/'] + spec_join_slash(parts.drop_first())
    }
}

/// What `normalize_path` returns. The path is split on both slash
/// styles; a first component ending in `:` is kept verbatim as a
/// drive prefix that `..` can never pop; all other components are
/// folded (empty and `.` dropped, `..` pops but never below empty)
/// and joined by `/`.
pub open spec fn spec_normalize_path(p: Seq<char>) -> Seq<char> {
    let parts = spec_split(p, '/', '\\');
    let first = parts[0];
    if spec_is_drive(first) {
        first.push('/') + spec_join_slash(spec_fold_components(Seq::empty(), parts.drop_first()))
    } else {
        spec_join_slash(spec_fold_components(Seq::empty(), parts))
    }
}

proof fn lemma_join_slash_push(parts: Seq<Seq<char>>, last: Seq<char>)
    ensures
        spec_join_slash(parts.push(last)) == if parts.len() == 0 {
            last
        } else {
            spec_join_slash(parts) + seq!['/'] + last
        },
    decreases parts.len(),
{
    if parts.len() == 0 {
        assert(parts.push(last).len() == 1);
        assert(spec_join_slash(parts.push(last)) == parts.push(last)[0]);
    } else {
        lemma_join_slash_push(parts.drop_first(), last);
        assert(parts.push(last).drop_first() =~= parts.drop_first().push(last));
        if parts.len() == 1 {
            assert(parts.drop_first().len() == 0);
            assert(spec_join_slash(parts.push(last)) == parts[0] + seq!['/'] + last);
            assert(spec_join_slash(parts) == parts[0]);
        }
    }
}

/// Normalizes an emulated-Windows path: backslashes become `/`, `.`
/// and empty components are dropped, `..` pops the previous component
/// but never the drive prefix.
pub fn normalize_path(path: &str) -> (r: String)
    ensures
        r@ == spec_normalize_path(path@),
{
    let parts = split_chars(path, '/', '\\');
    let ghost gparts = spec_split(path@, '/', '\\');
    let first = parts[0];
    let fn_len = first.unicode_len();
    let mut components: Vec<&str> = Vec::new();
    let mut prefix: String = String::new();
    let mut i: usize = 0;
    if fn_len > 0 && first.get_char(fn_len - 1) == ':' {
        prefix = first.to_owned().concat("/");
        i = 1;
        proof {
            reveal_strlit("/");
            assert(prefix@ =~= first@.push('/'));
        }
    }
    let ghost gstart = i as int;
    proof {
        assert(views_of(components@) =~= Seq::<Seq<char>>::empty());
    }
    while i < parts.len()
        invariant
            gstart <= i <= parts.len(),
            gparts == views_of(parts@),
            gparts.len() == parts.len(),
            spec_fold_components(Seq::empty(), gparts.skip(gstart)) == spec_fold_components(
                views_of(components@),
                gparts.skip(i as int),
            ),
        decreases parts.len() - i,
    {
        let part = parts[i];
        let ghost before = views_of(components@);
        proof {
            assert(gparts.skip(i as int)[0] == part@);
            assert(gparts.skip(i as int).drop_first() =~= gparts.skip(i + 1));
            reveal_strlit(".");
            reveal_strlit("..");
        }
        if part.is_empty() || str_eq(part, ".") {
        } else if str_eq(part, "..") {
            if components.len() > 0 {
                components.pop();
                proof {
                    assert(views_of(components@) =~= before.drop_last());
                }
            }
        } else {
            components.push(part);
            proof {
                assert(views_of(components@) =~= before.push(part@));
            }
        }
        i += 1;
    }
    let ghost folded = spec_fold_components(Seq::empty(), gparts.skip(gstart));
    proof {
        assert(gparts.skip(parts@.len() as int) =~= Seq::<Seq<char>>::empty());
        assert(folded == views_of(components@));
    }
    let mut joined: String = prefix;
    let ghost base = joined@;
    let mut j: usize = 0;
    while j < components.len()
        invariant
            j <= components.len(),
            folded == views_of(components@),
            folded.len() == components.len(),
            joined@ == base + spec_join_slash(folded.take(j as int)),
        decreases components.len() - j,
    {
        proof {
            lemma_join_slash_push(folded.take(j as int), folded[j as int]);
            assert(folded.take(j + 1) =~= folded.take(j as int).push(folded[j as int]));
        }
        if j > 0 {
            joined.append("/");
            proof {
                reveal_strlit("/");
            }
        }
        joined.append(components[j]);
        proof {
            if j == 0 {
                assert(spec_join_slash(folded.take(0)) =~= Seq::<char>::empty());
                assert(joined@ =~= base + folded[0]);
                assert(joined@ =~= base + spec_join_slash(folded.take(1)));
            } else {
                assert(joined@ =~= base + (spec_join_slash(folded.take(j as int)) + seq!['/']
                    + folded[j as int]));
            }
        }
        j += 1;
    }
    proof {
        assert(folded.take(components@.len() as int) =~= folded);
        if parts@.len() > 0 {
            assert(gparts[0] == parts@[0]@);
        }
        assert(gparts.skip(0) =~= gparts);
        assert(gparts.drop_first() =~= gparts.skip(1));
        assert(joined@ =~= spec_normalize_path(path@));
    }
    joined
}

} // verus!

use crate::reg::{
    entry_views, parse_reg_file, spec_parse_reg_file, RegEntrySpec, RegValueEnum, RegValueSpec,
};
use crate::strutil::{spec_trim, trim_ws};

verus! {

/// Why no user-profile path could be derived from a registry export.
#[derive(Clone, Copy, Debug, PartialEq, Eq, Structural)]
pub enum ProfilePathError {
    /// No `Volatile Environment` section in the export.
    VolatileEnvironmentNotFound,
    /// No `USERPROFILE` string value in that section.
    UserProfileNotFound,
}

/// The first entry with the given section path, if any.
pub open spec fn spec_first_entry_with(es: Seq<RegEntrySpec>, path: Seq<char>) -> Option<
    RegEntrySpec,
>
    decreases es.len(),
{
    if es.len() == 0 {
        None
    } else if es[0].path == path {
        Some(es[0])
    } else {
        spec_first_entry_with(es.drop_first(), path)
    }
}

/// The first value whose key, trimmed, is `USERPROFILE`, if any.
pub open spec fn spec_profile_value(vs: Seq<(Seq<char>, RegValueSpec)>) -> Option<RegValueSpec>
    decreases vs.len(),
{
    if vs.len() == 0 {
        None
    } else if spec_trim(vs[0].0) == "USERPROFILE"@ {
        Some(vs[0].1)
    } else {
        spec_profile_value(vs.drop_first())
    }
}

/// What deriving the profile path from a registry export yields:
/// the `USERPROFILE` string value of the first `Volatile
/// Environment` section, normalized; an absent section or an absent
/// (or non-string) value is the corresponding error.
pub open spec fn spec_user_profile_outcome(
    text: Seq<char>,
    r: Result<String, ProfilePathError>,
) -> bool {
    match spec_first_entry_with(spec_parse_reg_file(text), "Volatile Environment"@) {
        None => r == Err::<String, ProfilePathError>(
            ProfilePathError::VolatileEnvironmentNotFound,
        ),
        Some(en) => match spec_profile_value(en.values) {
            Some(RegValueSpec::Str(p)) => r matches Ok(s) && s@ == spec_normalize_path(p),
            _ => r == Err::<String, ProfilePathError>(ProfilePathError::UserProfileNotFound),
        },
    }
}

/// Derives the normalized emulated-Windows user-profile path from
/// the text of a registry export.
pub fn get_windows_like_user_profile_path(user_reg_content: &str) -> (r: Result<
    String,
    ProfilePathError,
>)
    ensures
        spec_user_profile_outcome(user_reg_content@, r),
{
    let entries = parse_reg_file(user_reg_content);
    let ghost ges = spec_parse_reg_file(user_reg_content@);
    let ghost target = "Volatile Environment"@;
    let mut i: usize = 0;
    proof {
        assert(ges.skip(0) =~= ges);
    }
    while i < entries.len()
        invariant
            i <= entries@.len(),
            ges == entry_views(entries@),
            ges == spec_parse_reg_file(user_reg_content@),
            ges.len() == entries@.len(),
            target == "Volatile Environment"@,
            spec_first_entry_with(ges, target) == spec_first_entry_with(
                ges.skip(i as int),
                target,
            ),
        decreases entries@.len() - i,
    {
        proof {
            assert(ges.skip(i as int)[0] == ges[i as int]);
            assert(ges.skip(i as int).drop_first() =~= ges.skip(i + 1));
        }
        if str_eq(entries[i].path.as_str(), "Volatile Environment") {
            let found = &entries[i];
            let ghost gvs = found@.values;
            let mut j: usize = 0;
            proof {
                assert(spec_first_entry_with(ges, target) == Some(ges[i as int]));
                assert(gvs.skip(0) =~= gvs);
            }
            while j < found.values.len()
                invariant
                    j <= found.values@.len(),
                    gvs == found@.values,
                    gvs.len() == found.values@.len(),
                    ges == spec_parse_reg_file(user_reg_content@),
                    target == "Volatile Environment"@,
                    spec_first_entry_with(ges, target) == Some(found@),
                    spec_profile_value(gvs) == spec_profile_value(gvs.skip(j as int)),
                decreases found.values@.len() - j,
            {
                proof {
                    assert(gvs.skip(j as int)[0] == gvs[j as int]);
                    assert(gvs.skip(j as int).drop_first() =~= gvs.skip(j + 1));
                    assert(gvs[j as int] == (found.values@[j as int].0@,
                    found.values@[j as int].1@));
                }
                if str_eq(trim_ws(found.values[j].0.as_str()), "USERPROFILE") {
                    match &found.values[j].1 {
                        RegValueEnum::String(profile) => {
                            return Ok(normalize_path(profile.as_str()));
                        },
                        RegValueEnum::Number(_) => {
                            return Err(ProfilePathError::UserProfileNotFound);
                        },
                    }
                }
                j += 1;
            }
            proof {
                assert(gvs.skip(j as int) =~= Seq::<(Seq<char>, RegValueSpec)>::empty());
                assert(spec_profile_value(gvs) is None);
            }
            return Err(ProfilePathError::UserProfileNotFound);
        }
        i += 1;
    }
    proof {
        assert(ges.skip(i as int) =~= Seq::<RegEntrySpec>::empty());
    }
    Err(ProfilePathError::VolatileEnvironmentNotFound)
}

} // verus!
