use vstd::prelude::*;

use crate::classify::{action_for, sha1_hex_of, skipped, Action};
use crate::manifest::{sizes_of, update_needed, url_of, FileEntry};
use crate::stats::{finished, tally, totals};

verus! {

/// The digest of the file that `tree` holds under `name`, if it holds one.
pub open spec fn local_digest(tree: Map<Seq<char>, Seq<u8>>, name: Seq<char>) -> Option<Seq<char>> {
    if tree.contains_key(name) {
        Some(sha1_hex_of(tree[name]))
    } else {
        None
    }
}

/// The action for `entry` against the installed tree `tree`.
pub open spec fn entry_action(
    tree: Map<Seq<char>, Seq<u8>>,
    entry: FileEntry,
    launcher: bool,
    exclude: Seq<String>,
) -> Action {
    action_for(entry, launcher, exclude, local_digest(tree, entry.name@))
}

/// The installed tree after `entry` was handled: a fetched file takes the
/// place of whatever stood under its name; otherwise nothing changes.
pub open spec fn after_entry(
    tree: Map<Seq<char>, Seq<u8>>,
    entry: FileEntry,
    launcher: bool,
    exclude: Seq<String>,
    base_url: Seq<char>,
    server: Map<Seq<char>, Seq<u8>>,
) -> Map<Seq<char>, Seq<u8>> {
    match entry_action(tree, entry, launcher, exclude) {
        Action::Download { .. } => tree.insert(entry.name@, server[url_of(base_url, entry.hash@)]),
        _ => tree,
    }
}

/// The installed tree after every entry of `files` was handled.
pub open spec fn after_sync(
    tree: Map<Seq<char>, Seq<u8>>,
    files: Seq<FileEntry>,
    launcher: bool,
    exclude: Seq<String>,
    base_url: Seq<char>,
    server: Map<Seq<char>, Seq<u8>>,
) -> Map<Seq<char>, Seq<u8>>
    decreases files.len(),
{
    if files.len() == 0 {
        tree
    } else {
        after_entry(
            after_sync(tree, files.drop_last(), launcher, exclude, base_url, server),
            files.last(),
            launcher,
            exclude,
            base_url,
            server,
        )
    }
}

/// The action for each entry of `files` against `tree`.
pub open spec fn run_actions(
    tree: Map<Seq<char>, Seq<u8>>,
    files: Seq<FileEntry>,
    launcher: bool,
    exclude: Seq<String>,
) -> Seq<Action> {
    Seq::new(files.len(), |i: int| entry_action(tree, files[i], launcher, exclude))
}

/// The server holds, under each entry's address, content whose digest is
/// the entry's hash.
pub open spec fn content_addressed(
    server: Map<Seq<char>, Seq<u8>>,
    base_url: Seq<char>,
    files: Seq<FileEntry>,
) -> bool {
    forall|i: int|
        0 <= i < files.len() ==> {
            let url = #[trigger] url_of(base_url, files[i].hash@);
            server.contains_key(url) && sha1_hex_of(server[url]) == files[i].hash@
        }
}

/// Entries that share a name share a hash.
pub open spec fn names_agree(files: Seq<FileEntry>) -> bool {
    forall|i: int, j: int|
        0 <= i < files.len() && 0 <= j < files.len() && #[trigger] files[i].name@
            == #[trigger] files[j].name@ ==> files[i].hash@ == files[j].hash@
}

/// After a sync, every entry that is not skipped has, under its name, a
/// file whose digest is the entry's hash, provided the server hands out
/// what each hash names and entries of one name agree on the hash.
pub proof fn lemma_sync_converges(
    tree: Map<Seq<char>, Seq<u8>>,
    files: Seq<FileEntry>,
    launcher: bool,
    exclude: Seq<String>,
    base_url: Seq<char>,
    server: Map<Seq<char>, Seq<u8>>,
)
    requires
        content_addressed(server, base_url, files),
        names_agree(files),
    ensures
        forall|i: int|
            0 <= i < files.len() && !skipped(files[i].name@, launcher, exclude) ==> local_digest(
                after_sync(tree, files, launcher, exclude, base_url, server),
                #[trigger] files[i].name@,
            ) == Some(files[i].hash@),
    decreases files.len(),
{
    if files.len() > 0 {
        let rest = files.drop_last();
        let e = files.last();
        let last = files.len() - 1;
        assert forall|i: int| 0 <= i < rest.len() implies {
            let url = #[trigger] url_of(base_url, rest[i].hash@);
            server.contains_key(url) && sha1_hex_of(server[url]) == rest[i].hash@
        } by {
            assert(rest[i] == files[i]);
            assert(url_of(base_url, files[i].hash@) == url_of(base_url, rest[i].hash@));
        }
        assert forall|i: int, j: int|
            0 <= i < rest.len() && 0 <= j < rest.len() && #[trigger] rest[i].name@
                == #[trigger] rest[j].name@ implies rest[i].hash@ == rest[j].hash@ by {
            assert(rest[i] == files[i] && rest[j] == files[j]);
        }
        lemma_sync_converges(tree, rest, launcher, exclude, base_url, server);
        let t = after_sync(tree, rest, launcher, exclude, base_url, server);
        let url = url_of(base_url, e.hash@);
        assert(url_of(base_url, files[last].hash@) == url);
        assert forall|i: int|
            0 <= i < files.len() && !skipped(files[i].name@, launcher, exclude) implies local_digest(
            after_sync(tree, files, launcher, exclude, base_url, server),
            #[trigger] files[i].name@,
        ) == Some(files[i].hash@) by {
            if i < last {
                assert(rest[i] == files[i]);
                assert(local_digest(t, rest[i].name@) == Some(rest[i].hash@));
                if files[i].name@ == e.name@ {
                    assert(files[last].name@ == files[i].name@);
                }
            }
        }
    }
}

/// What a sync leaves under each name, whatever the order of `files`: a
/// name that no kept entry has keeps what it had; under the name of a kept
/// entry stands the old file when its digest was already right, the
/// server's content for the entry's hash otherwise.
pub proof fn lemma_sync_result(
    tree: Map<Seq<char>, Seq<u8>>,
    files: Seq<FileEntry>,
    launcher: bool,
    exclude: Seq<String>,
    base_url: Seq<char>,
    server: Map<Seq<char>, Seq<u8>>,
)
    requires
        content_addressed(server, base_url, files),
        names_agree(files),
    ensures
        ({
            let after = after_sync(tree, files, launcher, exclude, base_url, server);
            &&& forall|n: Seq<char>|
                (forall|i: int|
                    0 <= i < files.len() && #[trigger] files[i].name@ == n ==> skipped(
                        n,
                        launcher,
                        exclude,
                    )) ==> (#[trigger] after.contains_key(n) == tree.contains_key(n) && (
                tree.contains_key(n) ==> after[n] == tree[n]))
            &&& forall|i: int|
                0 <= i < files.len() && !skipped(files[i].name@, launcher, exclude) ==> {
                    let n = #[trigger] files[i].name@;
                    &&& after.contains_key(n)
                    &&& after[n] == if local_digest(tree, n) == Some(files[i].hash@) {
                        tree[n]
                    } else {
                        server[url_of(base_url, files[i].hash@)]
                    }
                }
        }),
    decreases files.len(),
{
    if files.len() > 0 {
        let rest = files.drop_last();
        let e = files.last();
        let last = files.len() - 1;
        assert forall|i: int| 0 <= i < rest.len() implies {
            let url = #[trigger] url_of(base_url, rest[i].hash@);
            server.contains_key(url) && sha1_hex_of(server[url]) == rest[i].hash@
        } by {
            assert(rest[i] == files[i]);
            assert(url_of(base_url, files[i].hash@) == url_of(base_url, rest[i].hash@));
        }
        assert forall|i: int, j: int|
            0 <= i < rest.len() && 0 <= j < rest.len() && #[trigger] rest[i].name@
                == #[trigger] rest[j].name@ implies rest[i].hash@ == rest[j].hash@ by {
            assert(rest[i] == files[i] && rest[j] == files[j]);
        }
        lemma_sync_result(tree, rest, launcher, exclude, base_url, server);
        let t = after_sync(tree, rest, launcher, exclude, base_url, server);
        let after = after_sync(tree, files, launcher, exclude, base_url, server);
        let url = url_of(base_url, e.hash@);
        assert(files[last] == e);
        assert(url_of(base_url, files[last].hash@) == url);
        // what the last entry finds under its name
        if !skipped(e.name@, launcher, exclude) {
            if exists|k: int| 0 <= k < rest.len() && #[trigger] rest[k].name@ == e.name@ && !skipped(
                e.name@,
                launcher,
                exclude,
            ) {
                let k = choose|k: int|
                    0 <= k < rest.len() && #[trigger] rest[k].name@ == e.name@ && !skipped(
                        e.name@,
                        launcher,
                        exclude,
                    );
                assert(rest[k] == files[k]);
                assert(files[k].name@ == files[last].name@);
                assert(url_of(base_url, files[k].hash@) == url);
                assert(local_digest(t, e.name@) == Some(e.hash@));
                assert(after == t);
            } else {
                assert forall|i: int|
                    0 <= i < rest.len() && #[trigger] rest[i].name@ == e.name@ implies skipped(
                    e.name@,
                    launcher,
                    exclude,
                ) by {}
                assert(t.contains_key(e.name@) == tree.contains_key(e.name@));
                assert(tree.contains_key(e.name@) ==> t[e.name@] == tree[e.name@]);
                assert(local_digest(t, e.name@) == local_digest(tree, e.name@));
            }
        }
        assert forall|n: Seq<char>|
            (forall|i: int|
                0 <= i < files.len() && #[trigger] files[i].name@ == n ==> skipped(
                    n,
                    launcher,
                    exclude,
                )) implies (#[trigger] after.contains_key(n) == tree.contains_key(n) && (
        tree.contains_key(n) ==> after[n] == tree[n])) by {
            assert forall|i: int|
                0 <= i < rest.len() && #[trigger] rest[i].name@ == n implies skipped(
                n,
                launcher,
                exclude,
            ) by {
                assert(rest[i] == files[i]);
            }
            if n == e.name@ {
                assert(files[last].name@ == n);
            }
        }
        assert forall|i: int|
            0 <= i < files.len() && !skipped(files[i].name@, launcher, exclude) implies {
            let n = #[trigger] files[i].name@;
            &&& after.contains_key(n)
            &&& after[n] == if local_digest(tree, n) == Some(files[i].hash@) {
                tree[n]
            } else {
                server[url_of(base_url, files[i].hash@)]
            }
        } by {
            let n = files[i].name@;
            if i < last {
                assert(rest[i] == files[i]);
                if n == e.name@ {
                    assert(files[last].name@ == files[i].name@);
                    assert(files[i].hash@ == e.hash@);
                }
            } else {
                assert(files[i] == e);
            }
        }
    }
}

/// Two entry lists that hold the same entries.
pub open spec fn same_entries(a: Seq<FileEntry>, b: Seq<FileEntry>) -> bool {
    (forall|x: FileEntry| #[trigger] a.contains(x) ==> b.contains(x)) && (forall|x: FileEntry|
        #[trigger] b.contains(x) ==> a.contains(x))
}

/// Handling the same entries in another order leaves the same installed
/// tree.
pub proof fn lemma_sync_order_irrelevant(
    tree: Map<Seq<char>, Seq<u8>>,
    files_a: Seq<FileEntry>,
    files_b: Seq<FileEntry>,
    launcher: bool,
    exclude: Seq<String>,
    base_url: Seq<char>,
    server: Map<Seq<char>, Seq<u8>>,
)
    requires
        content_addressed(server, base_url, files_a),
        names_agree(files_a),
        same_entries(files_a, files_b),
    ensures
        after_sync(tree, files_a, launcher, exclude, base_url, server) == after_sync(
            tree,
            files_b,
            launcher,
            exclude,
            base_url,
            server,
        ),
{
    assert forall|j: int| 0 <= j < files_b.len() implies {
        let url = #[trigger] url_of(base_url, files_b[j].hash@);
        server.contains_key(url) && sha1_hex_of(server[url]) == files_b[j].hash@
    } by {
        assert(files_b.contains(files_b[j]));
        let i = choose|i: int| 0 <= i < files_a.len() && files_a[i] == files_b[j];
        assert(url_of(base_url, files_a[i].hash@) == url_of(base_url, files_b[j].hash@));
    }
    assert forall|i: int, j: int|
        0 <= i < files_b.len() && 0 <= j < files_b.len() && #[trigger] files_b[i].name@
            == #[trigger] files_b[j].name@ implies files_b[i].hash@ == files_b[j].hash@ by {
        assert(files_b.contains(files_b[i]));
        assert(files_b.contains(files_b[j]));
        let p = choose|p: int| 0 <= p < files_a.len() && files_a[p] == files_b[i];
        let q = choose|q: int| 0 <= q < files_a.len() && files_a[q] == files_b[j];
        assert(files_a[p].name@ == files_a[q].name@);
    }
    lemma_sync_result(tree, files_a, launcher, exclude, base_url, server);
    lemma_sync_result(tree, files_b, launcher, exclude, base_url, server);
    let ra = after_sync(tree, files_a, launcher, exclude, base_url, server);
    let rb = after_sync(tree, files_b, launcher, exclude, base_url, server);
    assert forall|n: Seq<char>| #[trigger] ra.contains_key(n) == rb.contains_key(n) && (
    ra.contains_key(n) ==> ra[n] == rb[n]) by {
        if exists|i: int|
            0 <= i < files_a.len() && #[trigger] files_a[i].name@ == n && !skipped(
                n,
                launcher,
                exclude,
            ) {
            let i = choose|i: int|
                0 <= i < files_a.len() && #[trigger] files_a[i].name@ == n && !skipped(
                    n,
                    launcher,
                    exclude,
                );
            assert(files_a.contains(files_a[i]));
            let j = choose|j: int| 0 <= j < files_b.len() && files_b[j] == files_a[i];
            assert(files_b[j].name@ == n);
        } else if exists|j: int|
            0 <= j < files_b.len() && #[trigger] files_b[j].name@ == n && !skipped(
                n,
                launcher,
                exclude,
            ) {
            let j = choose|j: int|
                0 <= j < files_b.len() && #[trigger] files_b[j].name@ == n && !skipped(
                    n,
                    launcher,
                    exclude,
                );
            assert(files_b.contains(files_b[j]));
            let i = choose|i: int| 0 <= i < files_a.len() && files_a[i] == files_b[j];
            assert(files_a[i].name@ == n);
        } else {
            assert forall|i: int|
                0 <= i < files_a.len() && #[trigger] files_a[i].name@ == n implies skipped(
                n,
                launcher,
                exclude,
            ) by {}
            assert forall|j: int|
                0 <= j < files_b.len() && #[trigger] files_b[j].name@ == n implies skipped(
                n,
                launcher,
                exclude,
            ) by {}
        }
    }
    assert(ra =~= rb);
}

/// With no fetch among the actions, the totals count no fetched file.
proof fn lemma_no_fetch_counted(actions: Seq<Action>, sizes: Seq<u32>, k: int)
    requires
        k <= actions.len(),
        forall|i: int| 0 <= i < actions.len() ==> !(#[trigger] actions[i] is Download),
    ensures
        tally(finished(actions), sizes, k).1 == 0,
    decreases k,
{
    if k > 0 {
        lemma_no_fetch_counted(actions, sizes, k - 1);
    }
}

/// Syncing again to the same manifest, with the tree left as the first sync
/// left it, fetches nothing: unforced, the revisions match and no work is
/// due; forced, every entry is skipped or found with the right content.
pub proof fn lemma_second_sync_fetches_nothing(
    tree: Map<Seq<char>, Seq<u8>>,
    revision: u16,
    files: Seq<FileEntry>,
    launcher: bool,
    exclude: Seq<String>,
    base_url: Seq<char>,
    server: Map<Seq<char>, Seq<u8>>,
)
    requires
        content_addressed(server, base_url, files),
        names_agree(files),
    ensures
        !update_needed(revision, revision, false),
        ({
            let again = run_actions(
                after_sync(tree, files, launcher, exclude, base_url, server),
                files,
                launcher,
                exclude,
            );
            &&& forall|i: int| 0 <= i < files.len() ==> !(#[trigger] again[i] is Download)
            &&& totals(finished(again), sizes_of(files)).1 == 0
        }),
{
    lemma_sync_converges(tree, files, launcher, exclude, base_url, server);
    let after = after_sync(tree, files, launcher, exclude, base_url, server);
    let again = run_actions(after, files, launcher, exclude);
    assert forall|i: int| 0 <= i < files.len() implies !(#[trigger] again[i] is Download) by {
        if !skipped(files[i].name@, launcher, exclude) {
            assert(local_digest(after, files[i].name@) == Some(files[i].hash@));
        }
    }
    lemma_no_fetch_counted(again, sizes_of(files), again.len() as int);
    assert(finished(again).len() == again.len());
}

} // verus!
