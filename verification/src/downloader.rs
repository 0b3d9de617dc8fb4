//! What a download of a paper's source bundle left on disk.

use crate::paths::{joined_path, FilePath, FilePathView};
use crate::text::{decimal, decimal_chars, from_chars, push_all, strings, to_chars};
use vstd::prelude::*;

verus! {

/// The directory under which each paper gets a directory of its own.
pub const OUTPUT_ROOT: &'static str = "output";

/// What the name of a downloaded archive ends with.
pub const ARCHIVE_SUFFIX: &'static str = ".tar.gz";

/// Why a download did not give a bundle.
#[derive(Debug, Clone, Copy, PartialEq, Eq, Structural)]
pub enum DownloadError {
    /// The server answered with this status, which is no success.
    Status(u16),
}

/// Whether an HTTP status tells of success: 200 up to 299.
pub open spec fn successful(status: u16) -> bool {
    200 <= status <= 299
}

/// Whether an HTTP status tells of success.
pub fn is_success(status: u16) -> (r: bool)
    ensures
        r == successful(status),
{
    200 <= status && status <= 299
}

/// Accepts the answer to a download request if its status tells of success.
pub fn check_status(status: u16) -> (r: Result<(), DownloadError>)
    ensures
        r == if successful(status) {
            Ok::<(), DownloadError>(())
        } else {
            Err::<(), DownloadError>(DownloadError::Status(status))
        },
{
    if is_success(status) {
        Ok(())
    } else {
        Err(DownloadError::Status(status))
    }
}

/// The directory of the paper with identifier `id`.
pub open spec fn paper_dir(id: Seq<char>) -> FilePathView {
    joined_path(FilePathView { path: OUTPUT_ROOT@, components: seq![OUTPUT_ROOT@] }, id)
}

/// The archive file of the paper with identifier `id`, in its directory.
pub open spec fn archive_file(id: Seq<char>) -> FilePathView {
    joined_path(paper_dir(id), id + ARCHIVE_SUFFIX@)
}

/// A downloaded bundle: the paper it belongs to, the archive file, and the
/// directory that holds everything about the paper.
#[derive(Debug)]
pub struct PaperData {
    pub paper_id: String,
    pub archive_path: FilePath,
    pub output_dir: FilePath,
}

impl PaperData {
    /// The record of a bundle that was downloaded to `archive_path`.
    pub fn new(paper_id: String, archive_path: FilePath, output_dir: FilePath) -> (r: PaperData)
        ensures
            r.paper_id == paper_id,
            r.archive_path == archive_path,
            r.output_dir == output_dir,
    {
        PaperData { paper_id, archive_path, output_dir }
    }

    /// Where the bundle of the paper with identifier `paper_id` is to be
    /// put: the archive in the directory of the paper.
    pub fn for_download(paper_id: &str) -> (r: PaperData)
        ensures
            r.paper_id@ == paper_id@,
            r.output_dir@ == paper_dir(paper_id@),
            r.archive_path@ == archive_file(paper_id@),
    {
        let mut names: Vec<String> = Vec::new();
        names.push(OUTPUT_ROOT.to_owned());
        assert(strings(names@) == seq![OUTPUT_ROOT@]);
        let root = FilePath::new(OUTPUT_ROOT.to_owned(), names);
        let output_dir = root.join(paper_id);
        let mut file_name = to_chars(paper_id);
        push_all(&mut file_name, &to_chars(ARCHIVE_SUFFIX));
        let archive_path = output_dir.join(from_chars(&file_name).as_str());
        PaperData { paper_id: paper_id.to_owned(), archive_path, output_dir }
    }
}

impl DownloadError {
    /// A sentence that says what went wrong.
    pub fn message(&self) -> (r: String)
        ensures
            r@ == match self {
                DownloadError::Status(status) => "Failed to download paper: HTTP "@ + decimal(
                    *status as nat,
                ),
            },
    {
        match self {
            DownloadError::Status(status) => {
                let mut text = to_chars("Failed to download paper: HTTP ");
                push_all(&mut text, &decimal_chars(*status as usize));
                from_chars(&text)
            },
        }
    }
}

} // verus!
