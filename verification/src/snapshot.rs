//! Snapshot-isolated, read-only access to an embedded key-value
//! store: the live store's directory is copied into a private
//! ephemeral location first, and the copy is what is opened, so the
//! live store is never locked or written by this process.

use vstd::prelude::*;
use vstd::string::StringExecFns;
use vstd::utf8::{encode_utf8, valid_utf8};

use rusty_leveldb::LdbIterator;

verus! {

#[verifier::external_type_specification]
#[verifier::external_body]
pub struct ExDb(rusty_leveldb::DB);

#[verifier::external_type_specification]
#[verifier::external_body]
pub struct ExTempDir(tempfile::TempDir);

/// The key/value pairs an opened snapshot holds, in the order the
/// store's iterator yields them.
pub uninterp spec fn snapshot_contents(s: Snapshot) -> Seq<(Seq<u8>, Seq<u8>)>;

/// Strict bytewise lexicographic order.
pub open spec fn bytes_lt(a: Seq<u8>, b: Seq<u8>) -> bool
    decreases a.len(),
{
    if b.len() == 0 {
        false
    } else if a.len() == 0 {
        true
    } else if a[0] < b[0] {
        true
    } else if a[0] > b[0] {
        false
    } else {
        bytes_lt(a.drop_first(), b.drop_first())
    }
}

/// Keys strictly ascending in bytewise order; in particular, unique.
pub open spec fn entries_sorted(es: Seq<(Seq<u8>, Seq<u8>)>) -> bool {
    forall|i: int, j: int|
        0 <= i < j < es.len() ==> bytes_lt(#[trigger] es[i].0, #[trigger] es[j].0)
}

/// The store could not be copied, opened, read or closed.
#[derive(Debug)]
pub struct SnapshotError {
    pub message: String,
}

/// An ephemeral, exclusively owned copy of a key-value store,
/// opened read-only; dropping it removes the copy.
pub struct Snapshot {
    db: rusty_leveldb::DB,
    temp_dir: tempfile::TempDir,
}

impl Snapshot {
    /// Relies on tempfile::tempdir, fs_extra::dir::copy and
    /// rusty_leveldb::DB::open: the live store's directory tree is
    /// copied (contents only) into a fresh private temporary
    /// directory, and the store engine is opened on that copy. The
    /// engine's default comparator orders keys bytewise, so the
    /// opened store's contents are strictly ascending by key.
    #[verifier::external_body]
    pub fn open(live_store_path: &str) -> (r: Result<Snapshot, SnapshotError>)
        ensures
            match r {
                Ok(s) => entries_sorted(snapshot_contents(s)),
                Err(_) => true,
            },
    {
        let temp_dir = match tempfile::tempdir() {
            Ok(t) => t,
            Err(e) => return Err(SnapshotError { message: format!("{}", e) }),
        };
        let mut copy_options = fs_extra::dir::CopyOptions::new();
        copy_options.content_only = true;
        if let Err(e) = fs_extra::dir::copy(live_store_path, temp_dir.path(), &copy_options) {
            return Err(SnapshotError { message: format!("{}", e) });
        }
        match rusty_leveldb::DB::open(temp_dir.path(), rusty_leveldb::Options::default()) {
            Ok(db) => Ok(Snapshot { db, temp_dir }),
            Err(e) => Err(SnapshotError { message: format!("{}", e) }),
        }
    }

    /// Relies on rusty_leveldb::DB::get: a point lookup in the
    /// snapshot. A value that comes back is one the snapshot holds
    /// for that key; the engine reports a read error as absence, so
    /// absence is not promised to mean the key is not there.
    #[verifier::external_body]
    pub fn get(&mut self, key: &[u8]) -> (r: Option<Vec<u8>>)
        ensures
            snapshot_contents(*final(self)) == snapshot_contents(*old(self)),
            match r {
                Some(v) => exists|i: int|
                    0 <= i < snapshot_contents(*old(self)).len() && snapshot_contents(
                        *old(self),
                    )[i] == (key@, v@),
                None => true,
            },
    {
        self.db.get(key).map(|b| b.to_vec())
    }

    /// Relies on rusty_leveldb::DB::new_iter and LdbIterator::next:
    /// iterating a fresh iterator to its end yields exactly the
    /// snapshot's key/value pairs, in the store's key order.
    #[verifier::external_body]
    pub fn entries(&mut self) -> (r: Result<Vec<(Vec<u8>, Vec<u8>)>, SnapshotError>)
        ensures
            snapshot_contents(*final(self)) == snapshot_contents(*old(self)),
            match r {
                Ok(v) => byte_pair_views(v@) == snapshot_contents(*old(self)),
                Err(_) => true,
            },
    {
        let mut it = match self.db.new_iter() {
            Ok(it) => it,
            Err(e) => return Err(SnapshotError { message: format!("{}", e) }),
        };
        let mut out: Vec<(Vec<u8>, Vec<u8>)> = Vec::new();
        while let Some(pair) = it.next() {
            out.push(pair);
        }
        Ok(out)
    }

    /// Relies on rusty_leveldb::DB::close: flushes and releases the
    /// engine; dropping the temporary directory then removes the
    /// ephemeral copy, so both resources go together on every path.
    #[verifier::external_body]
    pub fn close(self) -> (r: Result<(), SnapshotError>)
    {
        let mut s = self;
        match s.db.close() {
            Ok(()) => Ok(()),
            Err(e) => Err(SnapshotError { message: format!("{}", e) }),
        }
    }

    /// All pairs whose key starts with `prefix`, in the snapshot's
    /// own (bytewise ascending) key order.
    pub fn scan_prefix(&mut self, prefix: &[u8]) -> (r: Result<
        Vec<(Vec<u8>, Vec<u8>)>,
        SnapshotError,
    >)
        ensures
            snapshot_contents(*final(self)) == snapshot_contents(*old(self)),
            match r {
                Ok(v) => byte_pair_views(v@) == spec_scan_prefix(snapshot_contents(*old(self)), prefix@),
                Err(_) => true,
            },
    {
        let all = match self.entries() {
            Ok(v) => v,
            Err(e) => return Err(e),
        };
        let ghost gents = byte_pair_views(all@);
        let mut out: Vec<(Vec<u8>, Vec<u8>)> = Vec::new();
        let mut i: usize = 0;
        proof {
            assert(gents.skip(0) =~= gents);
            assert(byte_pair_views(out@) + spec_scan_prefix(gents, prefix@) =~= spec_scan_prefix(
                gents,
                prefix@,
            ));
        }
        while i < all.len()
            invariant
                i <= all@.len(),
                gents == byte_pair_views(all@),
                gents.len() == all@.len(),
                spec_scan_prefix(gents, prefix@) == byte_pair_views(out@) + spec_scan_prefix(
                    gents.skip(i as int),
                    prefix@,
                ),
            decreases all@.len() - i,
        {
            let ghost pre_out = byte_pair_views(out@);
            proof {
                assert(gents[i as int] == (all@[i as int].0@, all@[i as int].1@));
                assert(gents.skip(i as int)[0] == gents[i as int]);
                assert(gents.skip(i as int).drop_first() =~= gents.skip(i + 1));
            }
            if bytes_have_prefix(&all[i].0, prefix) {
                let ghost o_head = out@;
                let key_copy = clone_bytes(&all[i].0);
                let val_copy = clone_bytes(&all[i].1);
                out.push((key_copy, val_copy));
                proof {
                    assert(out@ == o_head.push(out@.last()));
                    assert(out@.last()@ == gents[i as int]);
                    assert(byte_pair_views(out@) =~= pre_out.push(gents[i as int]));
                    assert(pre_out.push(gents[i as int]) + spec_scan_prefix(
                        gents.skip(i + 1),
                        prefix@,
                    ) =~= pre_out + (seq![gents[i as int]] + spec_scan_prefix(
                        gents.skip(i + 1),
                        prefix@,
                    )));
                }
            }
            i += 1;
        }
        proof {
            assert(gents.skip(i as int) =~= Seq::<(Seq<u8>, Seq<u8>)>::empty());
            assert(byte_pair_views(out@) + Seq::<(Seq<u8>, Seq<u8>)>::empty() =~= byte_pair_views(
                out@,
            ));
        }
        Ok(out)
    }
}

/// The views of a sequence of byte-vector pairs.
pub open spec fn byte_pair_views(v: Seq<(Vec<u8>, Vec<u8>)>) -> Seq<(Seq<u8>, Seq<u8>)> {
    v.map_values(|p: (Vec<u8>, Vec<u8>)| (p.0@, p.1@))
}

/// `prefix` is a prefix of `key`.
pub open spec fn is_byte_prefix(prefix: Seq<u8>, key: Seq<u8>) -> bool {
    prefix.len() <= key.len() && key.subrange(0, prefix.len() as int) == prefix
}

/// The pairs whose key starts with `prefix`, kept in order.
pub open spec fn spec_scan_prefix(es: Seq<(Seq<u8>, Seq<u8>)>, prefix: Seq<u8>) -> Seq<
    (Seq<u8>, Seq<u8>),
>
    decreases es.len(),
{
    if es.len() == 0 {
        Seq::empty()
    } else {
        let rest = spec_scan_prefix(es.drop_first(), prefix);
        if is_byte_prefix(prefix, es[0].0) {
            seq![es[0]] + rest
        } else {
            rest
        }
    }
}

proof fn lemma_scan_prefix_members(es: Seq<(Seq<u8>, Seq<u8>)>, prefix: Seq<u8>)
    ensures
        forall|i: int|
            0 <= i < spec_scan_prefix(es, prefix).len() ==> exists|j: int|
                0 <= j < es.len() && es[j] == #[trigger] spec_scan_prefix(es, prefix)[i],
    decreases es.len(),
{
    if es.len() > 0 {
        let rest = spec_scan_prefix(es.drop_first(), prefix);
        lemma_scan_prefix_members(es.drop_first(), prefix);
        assert forall|i: int|
            0 <= i < spec_scan_prefix(es, prefix).len() implies exists|j: int|
                0 <= j < es.len() && es[j] == #[trigger] spec_scan_prefix(es, prefix)[i] by {
            let scan = spec_scan_prefix(es, prefix);
            if is_byte_prefix(prefix, es[0].0) && i == 0 {
                assert(es[0] == scan[0]);
            } else {
                let k = if is_byte_prefix(prefix, es[0].0) {
                    i - 1
                } else {
                    i
                };
                assert(scan[i] == rest[k]);
                let j = choose|j: int| 0 <= j < es.drop_first().len() && es.drop_first()[j]
                    == rest[k];
                assert(es.drop_first()[j] == es[j + 1]);
                assert(es[j + 1] == scan[i]);
            }
        }
    }
}

/// A prefix scan of a store whose keys ascend bytewise yields pairs
/// whose keys ascend bytewise too: filtering keeps the order.
pub proof fn lemma_scan_prefix_sorted(es: Seq<(Seq<u8>, Seq<u8>)>, prefix: Seq<u8>)
    requires
        entries_sorted(es),
    ensures
        entries_sorted(spec_scan_prefix(es, prefix)),
    decreases es.len(),
{
    if es.len() > 0 {
        let tail = es.drop_first();
        assert(entries_sorted(tail)) by {
            assert forall|i: int, j: int| 0 <= i < j < tail.len() implies bytes_lt(
                #[trigger] tail[i].0,
                #[trigger] tail[j].0,
            ) by {
                assert(tail[i] == es[i + 1] && tail[j] == es[j + 1]);
            }
        }
        lemma_scan_prefix_sorted(tail, prefix);
        lemma_scan_prefix_members(tail, prefix);
        let rest = spec_scan_prefix(tail, prefix);
        let scan = spec_scan_prefix(es, prefix);
        if is_byte_prefix(prefix, es[0].0) {
            assert forall|i: int, j: int| 0 <= i < j < scan.len() implies bytes_lt(
                #[trigger] scan[i].0,
                #[trigger] scan[j].0,
            ) by {
                if i == 0 {
                    assert(scan[j] == rest[j - 1]);
                    let m = choose|m: int| 0 <= m < tail.len() && tail[m] == rest[j - 1];
                    assert(tail[m] == es[m + 1]);
                    assert(bytes_lt(es[0].0, es[m + 1].0));
                } else {
                    assert(scan[i] == rest[i - 1] && scan[j] == rest[j - 1]);
                }
            }
        }
    }
}

/// Whether a key begins with the given byte prefix.
fn bytes_have_prefix(key: &Vec<u8>, prefix: &[u8]) -> (r: bool)
    ensures
        r == is_byte_prefix(prefix@, key@),
{
    if prefix.len() > key.len() {
        return false;
    }
    let mut j: usize = 0;
    while j < prefix.len()
        invariant
            j <= prefix@.len(),
            prefix@.len() <= key@.len(),
            forall|k: int| 0 <= k < j ==> key@[k] == prefix@[k],
        decreases prefix@.len() - j,
    {
        if key[j] != prefix[j] {
            proof {
                assert(key@.subrange(0, prefix@.len() as int)[j as int] == key@[j as int]);
            }
            return false;
        }
        j += 1;
    }
    proof {
        assert(key@.subrange(0, prefix@.len() as int) =~= prefix@);
    }
    true
}

/// A copy of a byte vector.
fn clone_bytes(v: &Vec<u8>) -> (r: Vec<u8>)
    ensures
        r@ == v@,
{
    let mut out: Vec<u8> = Vec::new();
    let mut j: usize = 0;
    while j < v.len()
        invariant
            j <= v@.len(),
            out@ == v@.take(j as int),
        decreases v@.len() - j,
    {
        out.push(v[j]);
        proof {
            assert(v@.take(j + 1) =~= v@.take(j as int).push(v@[j as int]));
        }
        j += 1;
    }
    proof {
        assert(v@.take(v@.len() as int) =~= v@);
    }
    out
}

/// Relies on String::from_utf8: it succeeds exactly on valid UTF-8
/// input, and the returned string's bytes are the input bytes.
#[verifier::external_body]
fn string_from_utf8(bytes: Vec<u8>) -> (r: Option<String>)
    ensures
        match r {
            Some(s) => valid_utf8(bytes@) && encode_utf8(s@) == bytes@,
            None => !valid_utf8(bytes@),
        },
{
    String::from_utf8(bytes).ok()
}

/// The stored auth token as text: an absent value is the empty
/// token, a present value must decode as UTF-8.
pub fn auth_string_of(value: Option<Vec<u8>>) -> (r: Result<String, SnapshotError>)
    ensures
        match value {
            None => r matches Ok(s) && s@ == Seq::<char>::empty(),
            Some(data) => if valid_utf8(data@) {
                r matches Ok(s) && encode_utf8(s@) == data@
            } else {
                r matches Err(_)
            },
        },
{
    match value {
        None => Ok(String::new()),
        Some(data) => match string_from_utf8(data) {
            Some(s) => Ok(s),
            None => Err(
                SnapshotError { message: "stored auth token is not valid UTF-8".to_owned() },
            ),
        },
    }
}

/// Reads the stored auth token from a snapshot of the live store:
/// the value under the `auth` key, or the empty token when the key
/// is absent. The snapshot is closed on every path.
pub fn get_auth(live_store_path: &str) -> (r: Result<String, SnapshotError>)
{
    let mut snapshot = match Snapshot::open(live_store_path) {
        Ok(s) => s,
        Err(e) => return Err(e),
    };
    let value = snapshot.get("auth".as_bytes());
    let close_result = snapshot.close();
    let auth = match auth_string_of(value) {
        Ok(s) => s,
        Err(e) => return Err(e),
    };
    match close_result {
        Ok(_) => Ok(auth),
        Err(e) => Err(e),
    }
}

} // verus!
