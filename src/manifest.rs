use vstd::prelude::*;
use vstd::string::StringExecFns;

verus! {

/// One file of a manifest: where it goes, how large it is, and the digest
/// of its content, which is also its key on the content server.
pub struct FileEntry {
    pub name: String,
    pub size: u32,
    pub hash: String,
}

/// A versioned description of a file set.
pub struct Manifest {
    pub product: String,
    pub revision: u16,
    pub base_url: String,
    pub files: Vec<FileEntry>,
}

/// The sizes of `files`, in order.
pub open spec fn sizes_of(files: Seq<FileEntry>) -> Seq<u32> {
    files.map_values(|f: FileEntry| f.size)
}

/// The sum of a sequence of sizes.
pub open spec fn sum_sizes(sizes: Seq<u32>) -> nat
    decreases sizes.len(),
{
    if sizes.len() == 0 {
        0
    } else {
        sum_sizes(sizes.drop_last()) + sizes.last() as nat
    }
}

/// The sum of the sizes of `files`.
pub open spec fn sizes_sum(files: Seq<FileEntry>) -> nat {
    sum_sizes(sizes_of(files))
}

/// The manifest of an install that has never been synced: revision 0,
/// nothing in it.
pub open spec fn is_blank(m: Manifest) -> bool {
    &&& m.revision == 0
    &&& m.product@.len() == 0
    &&& m.base_url@.len() == 0
    &&& m.files@.len() == 0
}

/// The address of a file's content: the base URL followed by its digest.
pub open spec fn url_of(base_url: Seq<char>, hash: Seq<char>) -> Seq<char> {
    base_url + hash
}

/// Whether a sync has any work to do.
pub open spec fn update_needed(remote: u16, local: u16, force: bool) -> bool {
    force || remote > local
}

impl Manifest {
    /// The manifest that stands for an install with nothing synced yet.
    pub fn blank() -> (m: Manifest)
        ensures
            is_blank(m),
    {
        Manifest { product: String::new(), revision: 0, base_url: String::new(), files: Vec::new() }
    }

    /// The number of bytes that the whole file set weighs.
    pub fn total_bytes(&self) -> (r: u64)
        requires
            sizes_sum(self.files@) <= u64::MAX,
        ensures
            r == sizes_sum(self.files@),
    {
        let ghost sizes = sizes_of(self.files@);
        let mut total: u64 = 0;
        let mut i: usize = 0;
        while i < self.files.len()
            invariant
                i <= self.files@.len(),
                sizes == sizes_of(self.files@),
                total == sum_sizes(sizes.subrange(0, i as int)),
                sum_sizes(sizes) <= u64::MAX,
            decreases self.files@.len() - i,
        {
            proof {
                lemma_sum_sizes_prefix_le(sizes, i as int + 1);
                assert(sizes.subrange(0, i as int + 1).drop_last() =~= sizes.subrange(0, i as int));
            }
            total = total + self.files[i].size as u64;
            i = i + 1;
        }
        proof {
            assert(sizes.subrange(0, i as int) =~= sizes);
        }
        total
    }
}

/// The sum over a prefix never exceeds the sum over the whole.
pub proof fn lemma_sum_sizes_prefix_le(sizes: Seq<u32>, k: int)
    requires
        0 <= k <= sizes.len(),
    ensures
        sum_sizes(sizes.subrange(0, k)) <= sum_sizes(sizes),
    decreases sizes.len(),
{
    if k < sizes.len() {
        lemma_sum_sizes_prefix_le(sizes.drop_last(), k);
        assert(sizes.drop_last().subrange(0, k) =~= sizes.subrange(0, k));
    } else {
        assert(sizes.subrange(0, k) =~= sizes);
    }
}

/// The local manifest to work from: the stored one when it could be read and
/// decoded, the blank one otherwise. A missing or damaged local manifest is
/// never an error.
pub fn load_local(stored: Option<Manifest>) -> (m: Manifest)
    ensures
        stored is Some ==> m == stored->0,
        stored is None ==> is_blank(m),
{
    match stored {
        Some(m) => m,
        None => Manifest::blank(),
    }
}

/// Whether a sync is due: the remote revision is newer, or it is forced.
pub fn needs_update(remote: u16, local: u16, force: bool) -> (r: bool)
    ensures
        r == update_needed(remote, local, force),
{
    force || remote > local
}

/// The exit code of a run that only checks for an update: 1 when the
/// remote revision is newer than the local one, 0 when the install is
/// up to date.
pub fn check_exit_code(remote: u16, local: u16) -> (r: i32)
    ensures
        r == (if remote > local {
            1i32
        } else {
            0i32
        }),
{
    if remote > local {
        1
    } else {
        0
    }
}

/// Where a file's content is fetched from: the base URL and the digest,
/// joined with nothing between them.
pub fn download_url(base_url: &String, hash: &String) -> (r: String)
    ensures
        r@ == url_of(base_url@, hash@),
{
    let url = base_url.clone();
    url.concat(hash.as_str())
}

} // verus!
