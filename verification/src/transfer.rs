//! Transfer bookkeeping: per-file and per-directory progress records, the
//! pre-transfer totals, the emission thresholds, and the work queue of a
//! recursive directory listing.

use vstd::prelude::*;

use crate::sync::{fm_views, FileMetadata, FileMetadataModel, UnixFileStatus};
use crate::unixpath::spec_path_join;

verus! {

/// Progress of one file transfer, in bytes.
#[derive(Debug, Clone)]
pub struct FileTransferProgress {
    pub total_bytes: u64,
    pub transferred_bytes: u64,
}

/// Progress of a directory transfer: file and byte totals, the file in
/// flight, and that file's own progress.
#[derive(Debug, Clone)]
pub struct DirectoryTransferProgress {
    pub directory_name: Option<String>,
    pub total_files: usize,
    pub transferred_files: usize,
    pub total_bytes: u64,
    pub transferred_bytes: u64,
    pub current_file: Option<String>,
    pub current_file_progress: FileTransferProgress,
}

/// The record emitted before any bytes of a file have moved.
pub fn initial_file_progress(total_bytes: u64) -> (r: FileTransferProgress)
    ensures
        r.total_bytes == total_bytes,
        r.transferred_bytes == 0,
{
    FileTransferProgress { total_bytes, transferred_bytes: 0 }
}

/// A file progress record mid-transfer; an unknown total reports as 0.
pub fn file_progress_update(total_bytes: Option<u64>, transferred_bytes: u64) -> (r:
    FileTransferProgress)
    ensures
        total_bytes matches Some(t) ==> r.total_bytes == t,
        total_bytes is None ==> r.total_bytes == 0,
        r.transferred_bytes == transferred_bytes,
{
    let t: u64 = match total_bytes {
        Some(t) => t,
        None => 0,
    };
    FileTransferProgress { total_bytes: t, transferred_bytes }
}

/// Whether enough new bytes have moved since the last emission to emit an
/// intermediate progress record.
pub fn should_emit_progress(transferred: u64, last_emitted: u64, threshold: u64) -> (r: bool)
    requires
        last_emitted <= transferred,
    ensures
        r == (transferred - last_emitted >= threshold),
{
    transferred - last_emitted >= threshold
}

/// The record emitted when a directory transfer starts.
pub fn initial_directory_progress(
    directory_name: String,
    total_files: usize,
    total_bytes: u64,
) -> (r: DirectoryTransferProgress)
    ensures
        r.directory_name matches Some(n) && n@ == directory_name@,
        r.total_files == total_files,
        r.transferred_files == 0,
        r.total_bytes == total_bytes,
        r.transferred_bytes == 0,
        r.current_file is None,
        r.current_file_progress.total_bytes == 0,
        r.current_file_progress.transferred_bytes == 0,
{
    DirectoryTransferProgress {
        directory_name: Some(directory_name),
        total_files,
        transferred_files: 0,
        total_bytes,
        transferred_bytes: 0,
        current_file: None,
        current_file_progress: FileTransferProgress { total_bytes: 0, transferred_bytes: 0 },
    }
}

/// The record emitted when one file of a directory transfer starts.
pub fn file_started_progress(
    total_files: usize,
    transferred_files: usize,
    total_bytes: u64,
    transferred_bytes: u64,
    current_file: String,
    file_size: u64,
) -> (r: DirectoryTransferProgress)
    ensures
        r.directory_name is None,
        r.total_files == total_files,
        r.transferred_files == transferred_files,
        r.total_bytes == total_bytes,
        r.transferred_bytes == transferred_bytes,
        r.current_file matches Some(n) && n@ == current_file@,
        r.current_file_progress.total_bytes == file_size,
        r.current_file_progress.transferred_bytes == 0,
{
    DirectoryTransferProgress {
        directory_name: None,
        total_files,
        transferred_files,
        total_bytes,
        transferred_bytes,
        current_file: Some(current_file),
        current_file_progress: FileTransferProgress { total_bytes: file_size, transferred_bytes: 0 },
    }
}

/// The record the aggregator re-emits for a file progress update: the
/// directory's completed bytes plus the bytes of the file in flight.
pub fn aggregated_progress(
    total_files: usize,
    transferred_files: usize,
    total_bytes: u64,
    transferred_bytes: u64,
    file_progress: FileTransferProgress,
) -> (r: DirectoryTransferProgress)
    requires
        transferred_bytes + file_progress.transferred_bytes <= u64::MAX,
    ensures
        r.directory_name is None,
        r.total_files == total_files,
        r.transferred_files == transferred_files,
        r.total_bytes == total_bytes,
        r.transferred_bytes == transferred_bytes + file_progress.transferred_bytes,
        r.current_file is None,
        r.current_file_progress == file_progress,
{
    let combined = transferred_bytes + file_progress.transferred_bytes;
    DirectoryTransferProgress {
        directory_name: None,
        total_files,
        transferred_files,
        total_bytes,
        transferred_bytes: combined,
        current_file: None,
        current_file_progress: file_progress,
    }
}

/// How many of the listed entries are regular files.
pub open spec fn spec_total_files(entries: Seq<FileMetadataModel>) -> int
    decreases entries.len(),
{
    if entries.len() == 0 {
        0
    } else {
        spec_total_files(entries.drop_last()) + (if entries.last().file_mode
            == UnixFileStatus::RegularFile {
            1int
        } else {
            0int
        })
    }
}

/// How many bytes the listed regular files hold together.
pub open spec fn spec_total_bytes(entries: Seq<FileMetadataModel>) -> int
    decreases entries.len(),
{
    if entries.len() == 0 {
        0
    } else {
        spec_total_bytes(entries.drop_last()) + (if entries.last().file_mode
            == UnixFileStatus::RegularFile {
            entries.last().size as int
        } else {
            0int
        })
    }
}

/// The file count never exceeds the entry count, and neither total is
/// negative.
pub proof fn lemma_totals_bounds(entries: Seq<FileMetadataModel>)
    ensures
        0 <= spec_total_files(entries) <= entries.len(),
        0 <= spec_total_bytes(entries),
    decreases entries.len(),
{
    if entries.len() > 0 {
        lemma_totals_bounds(entries.drop_last());
    }
}

/// Computes a listing's transfer totals: its regular-file count and their
/// summed sizes, as the pre-transfer walk does.
pub fn listing_totals(entries: &Vec<FileMetadata>) -> (r: (usize, u64))
    requires
        spec_total_bytes(fm_views(entries@)) <= u64::MAX,
    ensures
        r.0 == spec_total_files(fm_views(entries@)),
        r.1 == spec_total_bytes(fm_views(entries@)),
{
    let ghost all = fm_views(entries@);
    let n = entries.len();
    let mut files: usize = 0;
    let mut bytes: u64 = 0;
    let mut i: usize = 0;
    proof {
        assert(all.take(0) =~= Seq::<FileMetadataModel>::empty());
    }
    while i < n
        invariant
            n == entries@.len(),
            all == fm_views(entries@),
            all.len() == n,
            forall|j: int| 0 <= j < n ==> all[j] == entries@[j]@,
            0 <= i <= n,
            files == spec_total_files(all.take(i as int)),
            bytes == spec_total_bytes(all.take(i as int)),
            spec_total_bytes(all) <= u64::MAX,
        decreases n - i,
    {
        proof {
            assert(all.take(i as int + 1).drop_last() =~= all.take(i as int));
            assert(all.take(i as int + 1).last() == all[i as int]);
            lemma_totals_bounds(all.take(i as int));
            lemma_totals_bounds(all.take(i as int + 1));
            lemma_total_bytes_prefix(all, i as int + 1);
        }
        let e = &entries[i];
        if matches!(e.file_mode, UnixFileStatus::RegularFile) {
            files = files + 1;
            bytes = bytes + (e.size as u64);
        }
        i = i + 1;
    }
    proof {
        assert(all.take(n as int) =~= all);
    }
    (files, bytes)
}

/// A prefix of a listing never holds more bytes than the whole listing.
proof fn lemma_total_bytes_prefix(entries: Seq<FileMetadataModel>, i: int)
    requires
        0 <= i <= entries.len(),
    ensures
        spec_total_bytes(entries.take(i)) <= spec_total_bytes(entries),
    decreases entries.len() - i,
{
    if i < entries.len() {
        lemma_total_bytes_prefix(entries, i + 1);
        assert(entries.take(i + 1).drop_last() =~= entries.take(i));
        assert(entries.take(i + 1).last() == entries[i]);
    } else {
        assert(entries.take(i) =~= entries);
    }
}

/// What a directory pull does with one listed entry.
#[derive(Debug, Clone, Copy, PartialEq, Eq, Structural)]
pub enum TransferStep {
    /// A directory: create it locally.
    MakeDirectory,
    /// A regular file: pull its contents.
    PullFile,
    /// A symbolic link or anything else: leave it alone.
    Skip,
}

/// Decides what a directory pull does with one listed entry: directories
/// are created, regular files pulled, and everything else skipped.
pub fn pull_entry_step(entry: &FileMetadata) -> (r: TransferStep)
    ensures
        entry.file_mode == UnixFileStatus::Directory ==> r == TransferStep::MakeDirectory,
        entry.file_mode == UnixFileStatus::RegularFile ==> r == TransferStep::PullFile,
        entry.file_mode != UnixFileStatus::Directory && entry.file_mode
            != UnixFileStatus::RegularFile ==> r == TransferStep::Skip,
{
    match entry.file_mode {
        UnixFileStatus::Directory => TransferStep::MakeDirectory,
        UnixFileStatus::RegularFile => TransferStep::PullFile,
        _ => TransferStep::Skip,
    }
}

/// The character-level content of a listing job: the absolute remote
/// path, the depth, and the prefix under the walk root.
pub open spec fn job_views(jobs: Seq<(String, usize, String)>) -> Seq<(Seq<char>, int, Seq<char>)> {
    jobs.map_values(|j: (String, usize, String)| (j.0@, j.1 as int, j.2@))
}

/// The jobs a directory listing queues: one per directory entry, at one
/// more depth, rooted at the entry's path under the walk root.
pub open spec fn spec_child_jobs(
    src: Seq<char>,
    depth: int,
    entries: Seq<FileMetadataModel>,
) -> Seq<(Seq<char>, int, Seq<char>)>
    decreases entries.len(),
{
    if entries.len() == 0 {
        Seq::empty()
    } else {
        (if entries[0].file_mode == UnixFileStatus::Directory {
            seq![(spec_path_join(src, entries[0].path), depth + 1, entries[0].path)]
        } else {
            Seq::<(Seq<char>, int, Seq<char>)>::empty()
        }) + spec_child_jobs(src, depth, entries.drop_first())
    }
}

/// How many of the listed entries are directories.
pub open spec fn spec_total_dirs(entries: Seq<FileMetadataModel>) -> int
    decreases entries.len(),
{
    if entries.len() == 0 {
        0
    } else {
        (if entries[0].file_mode == UnixFileStatus::Directory {
            1int
        } else {
            0int
        }) + spec_total_dirs(entries.drop_first())
    }
}

/// The accounting of one listing step: feeding a directory's entries
/// queues exactly one further job per directory among them.
pub proof fn lemma_child_jobs_count(src: Seq<char>, depth: int, entries: Seq<FileMetadataModel>)
    ensures
        spec_child_jobs(src, depth, entries).len() == spec_total_dirs(entries),
    decreases entries.len(),
{
    if entries.len() > 0 {
        lemma_child_jobs_count(src, depth, entries.drop_first());
    }
}

/// The work queue of a recursive directory listing: jobs still to list,
/// and the entries listed so far.  Jobs leave the queue last-in first-out;
/// every listing of a directory queues that directory's subdirectories one
/// level deeper.
pub struct ListWalk {
    /// The walk's root on the device.
    pub src: String,
    /// Directories still to list: absolute path, depth, and prefix
    /// relative to the root.
    pub queue: Vec<(String, usize, String)>,
    /// Everything listed so far, paths relative to the root.
    pub listings: Vec<FileMetadata>,
}

impl ListWalk {
    /// Starts a walk at `src`: one job for the root itself, at depth 0,
    /// with an empty prefix.
    pub fn new(src: &str) -> (r: ListWalk)
        ensures
            r.src@ == src@,
            r.queue@.len() == 1,
            r.queue@[0].0@ == src@,
            r.queue@[0].1 == 0usize,
            r.queue@[0].2@.len() == 0,
            r.listings@.len() == 0,
    {
        let mut queue: Vec<(String, usize, String)> = Vec::new();
        queue.push((src.to_owned(), 0, String::new()));
        ListWalk { src: src.to_owned(), queue, listings: Vec::new() }
    }

    /// Takes the next directory to list, if any is left.
    pub fn next_job(&mut self) -> (r: Option<(String, usize, String)>)
        ensures
            final(self).src == old(self).src,
            final(self).listings == old(self).listings,
            old(self).queue@.len() == 0 ==> r is None && final(self).queue == old(self).queue,
            old(self).queue@.len() > 0 ==> (r matches Some(j) && j == old(self).queue@.last()
                && final(self).queue@ == old(self).queue@.drop_last()),
    {
        if self.queue.len() == 0 {
            None
        } else {
            self.queue.pop()
        }
    }

    /// Records the listing of one directory: every entry is appended to
    /// the listings, and every directory among them becomes a job one
    /// level deeper.
    pub fn feed(&mut self, depth: usize, entries: Vec<FileMetadata>)
        requires
            depth < usize::MAX,
        ensures
            final(self).src == old(self).src,
            final(self).listings@ == old(self).listings@ + entries@,
            job_views(final(self).queue@) == job_views(old(self).queue@) + spec_child_jobs(
                old(self).src@,
                depth as int,
                fm_views(entries@),
            ),
    {
        let ghost gentries = fm_views(entries@);
        let ghost start_queue = job_views(self.queue@);
        let ghost start_listings = self.listings@;
        let n = entries.len();
        let mut rest = entries;
        let mut i: usize = 0;
        proof {
            assert(gentries.skip(0) =~= gentries);
            assert(start_queue + Seq::<(Seq<char>, int, Seq<char>)>::empty() =~= start_queue);
            assert(start_listings + Seq::<FileMetadata>::empty() =~= start_listings);
            assert(rest@.skip(0) =~= rest@);
        }
        while i < n
            invariant
                n == rest@.len(),
                gentries == fm_views(rest@),
                gentries.len() == n,
                forall|j: int| 0 <= j < n ==> gentries[j] == rest@[j]@,
                depth < usize::MAX,
                0 <= i <= n,
                self.src == old(self).src,
                self.src@ == old(self).src@,
                self.listings@ == start_listings + rest@.take(i as int),
                job_views(self.queue@) == start_queue + spec_child_jobs(
                    old(self).src@,
                    depth as int,
                    gentries.take(i as int),
                ),
                start_queue == job_views(old(self).queue@),
                start_listings == old(self).listings@,
            decreases n - i,
        {
            proof {
                lemma_child_jobs_take(old(self).src@, depth as int, gentries, i as int);
            }
            let entry = &rest[i];
            let is_dir = matches!(entry.file_mode, UnixFileStatus::Directory);
            if is_dir {
                let child = crate::unixpath::path_join(self.src.as_str(), entry.path.as_str());
                let ghost old_queue = job_views(self.queue@);
                self.queue.push((child, depth + 1, entry.path.clone()));
                proof {
                    assert(job_views(self.queue@) =~= old_queue + seq![
                        (
                            spec_path_join(old(self).src@, gentries[i as int].path),
                            depth as int + 1,
                            gentries[i as int].path,
                        ),
                    ]);
                    assert(job_views(self.queue@) =~= start_queue + spec_child_jobs(
                        old(self).src@,
                        depth as int,
                        gentries.take(i as int + 1),
                    ));
                }
            } else {
                proof {
                    assert(job_views(self.queue@) =~= start_queue + spec_child_jobs(
                        old(self).src@,
                        depth as int,
                        gentries.take(i as int + 1),
                    ));
                }
            }
            let ghost old_listings = self.listings@;
            let entry_owned = FileMetadata {
                path: entry.path.clone(),
                file_mode: entry.file_mode,
                size: entry.size,
                modified_time: entry.modified_time,
                depth: entry.depth,
            };
            proof {
                assert(entry_owned == rest@[i as int]);
            }
            self.listings.push(entry_owned);
            proof {
                assert(self.listings@ =~= old_listings + seq![rest@[i as int]]);
                assert(self.listings@ =~= start_listings + rest@.take(i as int + 1));
            }
            i = i + 1;
        }
        proof {
            assert(gentries.take(n as int) =~= gentries);
            assert(rest@.take(n as int) =~= rest@);
        }
    }

    /// Hands the accumulated listings over.
    pub fn into_listings(self) -> (r: Vec<FileMetadata>)
        ensures
            r == self.listings,
    {
        self.listings
    }
}

/// Extending the fed prefix by one entry extends the queued jobs by that
/// entry's job, if it is a directory.
proof fn lemma_child_jobs_take(
    src: Seq<char>,
    depth: int,
    entries: Seq<FileMetadataModel>,
    i: int,
)
    requires
        0 <= i < entries.len(),
    ensures
        spec_child_jobs(src, depth, entries.take(i + 1)) =~= spec_child_jobs(
            src,
            depth,
            entries.take(i),
        ) + (if entries[i].file_mode == UnixFileStatus::Directory {
            seq![(spec_path_join(src, entries[i].path), depth + 1, entries[i].path)]
        } else {
            Seq::<(Seq<char>, int, Seq<char>)>::empty()
        }),
    decreases i,
{
    if i == 0 {
        assert(entries.take(1)[0] == entries[0]);
        assert(entries.take(1).drop_first() =~= entries.take(0));
        assert(entries.take(0).len() == 0);
    } else {
        lemma_child_jobs_take(src, depth, entries.drop_first(), i - 1);
        assert(entries.take(i + 1)[0] == entries[0]);
        assert(entries.take(i + 1).drop_first() =~= entries.drop_first().take(i));
        assert(entries.take(i)[0] == entries[0]);
        assert(entries.take(i).drop_first() =~= entries.drop_first().take(i - 1));
        assert(entries.drop_first()[i - 1] == entries[i]);
    }
}

} // verus!
