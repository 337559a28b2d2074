use vstd::prelude::*;

use crate::manifest::FileEntry;
use crate::text::{has_prefix, starts_with};

verus! {

/// How a sync treats the entries of a manifest.
pub struct SyncOptions {
    /// Check every file even when the local revision is current.
    pub force: bool,
    /// Also fetch the launcher's own assets.
    pub launcher: bool,
    /// Entries whose name begins with one of these are left alone.
    pub exclude: Vec<String>,
    /// How many files are worked on at once.
    pub threads: usize,
}

/// What a sync does with one entry.
#[derive(Clone, Copy, Debug, PartialEq, Eq, Structural)]
pub enum Action {
    /// Left alone: excluded, or a launcher asset that was not asked for.
    Skip,
    /// Already present with the right content.
    Verified,
    /// Fetched from the content server; `stale` when a file with other
    /// content stands in its place and must be removed first.
    Download { stale: bool },
}

/// The digest that `sha1_smol` gives for `bytes`, as lowercase hex.
pub uninterp spec fn sha1_hex_of(bytes: Seq<u8>) -> Seq<char>;

/// Relies on `sha1_smol::Sha1` (`new`, `update`, `digest`) and the `Display`
/// of its `Digest`: the hex SHA-1 digest of the bytes, which depends on the
/// bytes alone.
#[verifier::external_body]
fn content_digest(bytes: &Vec<u8>) -> (r: String)
    ensures
        r@ == sha1_hex_of(bytes@),
{
    let mut hasher = sha1_smol::Sha1::new();
    hasher.update(bytes.as_slice());
    hasher.digest().to_string()
}

/// The name prefix that marks a launcher asset.
pub open spec fn launcher_prefix() -> Seq<char> {
    "launcher"@
}

/// An entry with this name is skipped: it is a launcher asset that was not
/// asked for, or it falls under one of the excluded prefixes.
pub open spec fn skipped(name: Seq<char>, launcher: bool, exclude: Seq<String>) -> bool {
    (has_prefix(name, launcher_prefix()) && !launcher) || exists|j: int|
        0 <= j < exclude.len() && has_prefix(name, #[trigger] exclude[j]@)
}

/// The action for an entry, given the digest of the file now at its place
/// (`None` when there is no file there).
pub open spec fn action_for(
    entry: FileEntry,
    launcher: bool,
    exclude: Seq<String>,
    local_digest: Option<Seq<char>>,
) -> Action {
    if skipped(entry.name@, launcher, exclude) {
        Action::Skip
    } else if local_digest == Some(entry.hash@) {
        Action::Verified
    } else {
        Action::Download { stale: local_digest is Some }
    }
}

/// The digest of the file content at an entry's place, if there is a file.
pub open spec fn digest_of_content(content: Option<Seq<u8>>) -> Option<Seq<char>> {
    match content {
        Some(c) => Some(sha1_hex_of(c)),
        None => None,
    }
}

/// Whether the entry is left alone under `options`.
pub fn is_skipped(entry: &FileEntry, options: &SyncOptions) -> (r: bool)
    ensures
        r == skipped(entry.name@, options.launcher, options.exclude@),
{
    if !options.launcher && starts_with(entry.name.as_str(), "launcher") {
        return true;
    }
    let mut j: usize = 0;
    while j < options.exclude.len()
        invariant
            j <= options.exclude@.len(),
            forall|k: int| 0 <= k < j ==> !has_prefix(entry.name@, #[trigger] options.exclude@[k]@),
            !(has_prefix(entry.name@, launcher_prefix()) && !options.launcher),
        decreases options.exclude@.len() - j,
    {
        if starts_with(entry.name.as_str(), options.exclude[j].as_str()) {
            return true;
        }
        j = j + 1;
    }
    false
}

/// The action for an entry when the digest of the file at its place is
/// already known (`None`: no file there).
pub fn classify_with_digest(
    entry: &FileEntry,
    options: &SyncOptions,
    local_digest: Option<&String>,
) -> (r: Action)
    ensures
        r == action_for(
            *entry,
            options.launcher,
            options.exclude@,
            match local_digest {
                Some(d) => Some(d@),
                None => None,
            },
        ),
{
    if is_skipped(entry, options) {
        Action::Skip
    } else {
        match local_digest {
            Some(d) => {
                if *d == entry.hash {
                    Action::Verified
                } else {
                    Action::Download { stale: true }
                }
            },
            None => Action::Download { stale: false },
        }
    }
}

/// The action for an entry given the content of the file at its place
/// (`None`: no file there). The content is hashed only when it matters.
pub fn classify(entry: &FileEntry, options: &SyncOptions, local_content: Option<&Vec<u8>>) -> (r:
    Action)
    ensures
        r == action_for(
            *entry,
            options.launcher,
            options.exclude@,
            digest_of_content(
                match local_content {
                    Some(c) => Some(c@),
                    None => None,
                },
            ),
        ),
{
    if is_skipped(entry, options) {
        return Action::Skip;
    }
    match local_content {
        Some(c) => {
            let digest = content_digest(c);
            classify_with_digest(entry, options, Some(&digest))
        },
        None => classify_with_digest(entry, options, None),
    }
}

} // verus!
