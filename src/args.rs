use vstd::prelude::*;

use crate::text::without_quotes;

verus! {

/// The settings of one run of the updater.
pub struct Args {
    /// Installation directory.
    pub directory: String,
    /// Check every file's hash, even when the revision matches.
    pub force: bool,
    /// Also fetch the launcher's assets.
    pub launcher: bool,
    /// Hide file actions.
    pub quiet: bool,
    /// Hide all output but errors.
    pub silent: bool,
    /// Only tell whether an update is available, through the exit code.
    pub check: bool,
    /// Disable colors.
    pub no_color: bool,
    /// Back up the current version while updating.
    pub backup: bool,
    /// Create or update a backup of the current version.
    pub manual_backup: bool,
    /// List the backups.
    pub backup_list: bool,
    /// The backup to restore, or `undefined`.
    pub backup_restore: String,
    /// Has no effect: backups are off unless asked for.
    pub no_backup: bool,
    /// Where the remote manifest is fetched from.
    pub cdn_url: String,
    /// Print the local revision.
    pub version_local: bool,
    /// Print the remote revision.
    pub version_cdn: bool,
    /// Name prefixes of remote files to leave alone.
    pub exclude: Vec<String>,
    /// How many files are worked on at once.
    pub threads: usize,
}

/// The settings as given, with every `"` taken out of the installation
/// directory (a shell may leave quotes around a path).
pub fn get(args: Args) -> (r: Args)
    ensures
        r.directory@ == args.directory@.filter(|c: char| c != '"'),
        r.force == args.force && r.launcher == args.launcher,
        r.quiet == args.quiet && r.silent == args.silent,
        r.check == args.check && r.no_color == args.no_color,
        r.backup == args.backup && r.manual_backup == args.manual_backup,
        r.backup_list == args.backup_list && r.backup_restore == args.backup_restore,
        r.no_backup == args.no_backup && r.cdn_url == args.cdn_url,
        r.version_local == args.version_local && r.version_cdn == args.version_cdn,
        r.exclude == args.exclude && r.threads == args.threads,
{
    let directory = without_quotes(args.directory.as_str());
    Args { directory, ..args }
}

} // verus!
