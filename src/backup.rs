use vstd::prelude::*;
use vstd::string::StringExecFns;

use crate::manifest::{FileEntry, Manifest};
use crate::text::{decimal_u16, is_sorted, parse_u16, sort_ascending};

verus! {

/// The name of the local manifest file, beside the installed files and in
/// each backup.
pub const INFO_FILE: &'static str = "cdn_info.json";

/// How many existing backups survive rotation.
pub const RETAINED_BACKUPS: usize = 3;

/// The revisions named by `names`, in order; a name that is not a revision
/// number is passed over.
pub open spec fn parsed_revisions(names: Seq<String>) -> Seq<u16>
    decreases names.len(),
{
    if names.len() == 0 {
        seq![]
    } else {
        let prev = parsed_revisions(names.drop_last());
        match decimal_u16(names.last()@) {
            Some(r) => prev.push(r),
            None => prev,
        }
    }
}

/// The backups that rotation removes from the sorted list `backups`: all
/// but the newest three, when there are more than three.
pub open spec fn expired(backups: Seq<u16>) -> Seq<u16> {
    if backups.len() > RETAINED_BACKUPS {
        backups.subrange(0, backups.len() - RETAINED_BACKUPS)
    } else {
        seq![]
    }
}

/// The backups that survive rotation: those after the expired ones.
pub open spec fn retained(backups: Seq<u16>) -> Seq<u16> {
    backups.subrange(expired(backups).len() as int, backups.len() as int)
}

/// The files that make up an installed version of `files`: each entry's
/// name, then the local manifest file.
pub open spec fn version_names(files: Seq<FileEntry>) -> Seq<Seq<char>> {
    files.map_values(|f: FileEntry| f.name@).push(INFO_FILE@)
}

pub open spec fn names_of(v: Seq<String>) -> Seq<Seq<char>> {
    v.map_values(|s: String| s@)
}

/// The revisions of the backups, given the names of the directories under
/// the backup root: those names that are revision numbers, in ascending
/// numeric order.
pub fn list_backups(dir_names: &Vec<String>) -> (r: Vec<u16>)
    ensures
        is_sorted(r@),
        r@.to_multiset() == parsed_revisions(dir_names@).to_multiset(),
{
    let mut found: Vec<u16> = Vec::new();
    let mut i: usize = 0;
    while i < dir_names.len()
        invariant
            i <= dir_names@.len(),
            found@ == parsed_revisions(dir_names@.subrange(0, i as int)),
        decreases dir_names@.len() - i,
    {
        let parsed = parse_u16(dir_names[i].as_str());
        assert(dir_names@.subrange(0, i as int + 1).drop_last() =~= dir_names@.subrange(
            0,
            i as int,
        ));
        if let Some(r) = parsed {
            found.push(r);
        }
        i = i + 1;
    }
    assert(dir_names@.subrange(0, i as int) =~= dir_names@);
    sort_ascending(&mut found);
    found
}

/// The backups to delete before a new one is made: of the ascending list
/// that `list_backups` gives, all but the newest three.
pub fn expired_backups(backups: &Vec<u16>) -> (r: Vec<u16>)
    ensures
        r@ == expired(backups@),
{
    let mut out: Vec<u16> = Vec::new();
    if backups.len() > RETAINED_BACKUPS {
        let end = backups.len() - RETAINED_BACKUPS;
        let mut i: usize = 0;
        while i < end
            invariant
                end == backups@.len() - RETAINED_BACKUPS,
                i <= end,
                out@ == backups@.subrange(0, i as int),
            decreases end - i,
        {
            out.push(backups[i]);
            i = i + 1;
            assert(out@ =~= backups@.subrange(0, i as int));
        }
    }
    assert(out@ =~= expired(backups@));
    out
}

/// The files to copy to save or bring back the installed version that
/// `manifest` describes, relative to the directory copied from: every
/// entry's name in order, then the local manifest file.
pub fn version_files(manifest: &Manifest) -> (r: Vec<String>)
    ensures
        names_of(r@) == version_names(manifest.files@),
{
    let mut out: Vec<String> = Vec::new();
    let mut i: usize = 0;
    while i < manifest.files.len()
        invariant
            i <= manifest.files@.len(),
            names_of(out@) == manifest.files@.subrange(0, i as int).map_values(
                |f: FileEntry| f.name@,
            ),
        decreases manifest.files@.len() - i,
    {
        let ghost prev = out@;
        let name = manifest.files[i].name.clone();
        out.push(name);
        assert(names_of(out@) =~= names_of(prev).push(manifest.files@[i as int].name@));
        assert(manifest.files@.subrange(0, i as int + 1).map_values(|f: FileEntry| f.name@)
            =~= manifest.files@.subrange(0, i as int).map_values(|f: FileEntry| f.name@).push(
            manifest.files@[i as int].name@,
        ));
        i = i + 1;
    }
    out.push(String::from_str(INFO_FILE));
    assert(manifest.files@.subrange(0, i as int) =~= manifest.files@);
    assert(names_of(out@) =~= version_names(manifest.files@));
    out
}

/// The backup list after a snapshot with rotation was made of each
/// revision of `revisions` in turn, from no backups at all: rotation keeps
/// the newest three, then the new backup joins them.
pub open spec fn after_snapshots(revisions: Seq<u16>) -> Seq<u16>
    decreases revisions.len(),
{
    if revisions.len() == 0 {
        seq![]
    } else {
        retained(after_snapshots(revisions.drop_last())).push(revisions.last())
    }
}

pub open spec fn strictly_increasing(s: Seq<u16>) -> bool {
    forall|i: int, j: int| 0 <= i < j < s.len() ==> s[i] < s[j]
}

/// After snapshots with rotation of strictly increasing revisions, the
/// backups are the newest three of those made before the last one, and the
/// last one: at most four, ascending.
pub proof fn lemma_retention_bound(revisions: Seq<u16>)
    requires
        strictly_increasing(revisions),
    ensures
        revisions.len() >= 4 ==> after_snapshots(revisions) == revisions.subrange(
            revisions.len() - 4,
            revisions.len() as int,
        ),
        revisions.len() < 4 ==> after_snapshots(revisions) == revisions,
        is_sorted(after_snapshots(revisions)),
    decreases revisions.len(),
{
    let n = revisions.len() as int;
    if n > 0 {
        let rest = revisions.drop_last();
        lemma_retention_bound(rest);
        let start = if n >= 4 {
            n - 4
        } else {
            0
        };
        assert(after_snapshots(revisions) =~= revisions.subrange(start, n));
        if n < 4 {
            assert(revisions.subrange(0, n) =~= revisions);
        }
    }
}

/// `to` with each name of `names` that `from` holds copied over from
/// `from`; a name that `from` lacks is passed over.
pub open spec fn copy_present(
    from: Map<Seq<char>, Seq<u8>>,
    to: Map<Seq<char>, Seq<u8>>,
    names: Seq<Seq<char>>,
) -> Map<Seq<char>, Seq<u8>>
    decreases names.len(),
{
    if names.len() == 0 {
        to
    } else {
        let t = copy_present(from, to, names.drop_last());
        let n = names.last();
        if from.contains_key(n) {
            t.insert(n, from[n])
        } else {
            t
        }
    }
}

/// What `copy_present` leaves under each name.
proof fn lemma_copy_present(
    from: Map<Seq<char>, Seq<u8>>,
    to: Map<Seq<char>, Seq<u8>>,
    names: Seq<Seq<char>>,
    n: Seq<char>,
)
    ensures
        ({
            let r = copy_present(from, to, names);
            if names.contains(n) && from.contains_key(n) {
                r.contains_key(n) && r[n] == from[n]
            } else {
                r.contains_key(n) == to.contains_key(n) && (to.contains_key(n) ==> r[n] == to[n])
            }
        }),
    decreases names.len(),
{
    if names.len() > 0 {
        let rest = names.drop_last();
        lemma_copy_present(from, to, rest, n);
        if rest.contains(n) {
            let k = choose|k: int| 0 <= k < rest.len() && rest[k] == n;
            assert(names[k] == n);
        }
        if names.contains(n) && n != names.last() {
            let k = choose|k: int| 0 <= k < names.len() && names[k] == n;
            assert(rest[k] == n);
        }
        if n == names.last() {
            assert(names[names.len() - 1] == n);
        }
    }
}

/// A snapshot of `files` into a backup, then any change to the installed
/// files, then a restore of that backup: every file of the version that
/// was installed at the snapshot is back with the content it had then.
/// When the backup was new, a file of the version that was not installed
/// at the snapshot is neither brought back nor removed, and files outside
/// the version are not touched.
pub proof fn lemma_backup_round_trip(
    installed: Map<Seq<char>, Seq<u8>>,
    backup_before: Map<Seq<char>, Seq<u8>>,
    changed: Map<Seq<char>, Seq<u8>>,
    files: Seq<FileEntry>,
)
    ensures
        ({
            let names = version_names(files);
            let saved = copy_present(installed, backup_before, names);
            let restored = copy_present(saved, changed, names);
            &&& forall|n: Seq<char>|
                #[trigger] names.contains(n) && installed.contains_key(n) ==> restored.contains_key(n)
                    && restored[n] == installed[n]
            &&& forall|n: Seq<char>|
                !(#[trigger] names.contains(n)) ==> restored.contains_key(n) == changed.contains_key(n)
                    && (changed.contains_key(n) ==> restored[n] == changed[n])
            &&& backup_before.is_empty() ==> forall|n: Seq<char>|
                #[trigger] names.contains(n) && !installed.contains_key(n) ==> restored.contains_key(
                    n,
                ) == changed.contains_key(n) && (changed.contains_key(n) ==> restored[n]
                    == changed[n])
        }),
{
    let names = version_names(files);
    let saved = copy_present(installed, backup_before, names);
    let restored = copy_present(saved, changed, names);
    assert forall|n: Seq<char>|
        #[trigger] names.contains(n) && installed.contains_key(n) implies restored.contains_key(n)
        && restored[n] == installed[n] by {
        lemma_copy_present(installed, backup_before, names, n);
        lemma_copy_present(saved, changed, names, n);
    }
    assert forall|n: Seq<char>| !(#[trigger] names.contains(n)) implies restored.contains_key(n)
        == changed.contains_key(n) && (changed.contains_key(n) ==> restored[n] == changed[n]) by {
        lemma_copy_present(saved, changed, names, n);
    }
    if backup_before.is_empty() {
        assert forall|n: Seq<char>|
            #[trigger] names.contains(n) && !installed.contains_key(n) implies restored.contains_key(
            n,
        ) == changed.contains_key(n) && (changed.contains_key(n) ==> restored[n] == changed[n]) by {
            lemma_copy_present(installed, backup_before, names, n);
            assert(!backup_before.contains_key(n));
            lemma_copy_present(saved, changed, names, n);
        }
    }
}

} // verus!
