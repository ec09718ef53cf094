//! Reading the short status listing of `git status --porcelain`.
//!
//! Each line of the listing names one changed file: two status characters, a
//! blank, the path.

use vstd::prelude::*;
use vstd::slice::*;
use vstd::string::*;
use vstd::utf8::*;
use crate::streamer::{byte_views, cut_lines, line_bodies, unfinished};
use crate::shell::Invocation;
use crate::text::{text_from_utf8, text_from_utf8_lossy, trim, trimmed, utf8_lossy};

verus! {

/// The state of a file in the working tree.
#[derive(Clone, Copy, Debug, PartialEq, Eq, Structural)]
pub enum GitFileStatus {
    Untracked,
    Modified,
    Staged,
    Unmodified,
}

/// A file of the working tree and its state.
#[derive(Clone, Debug)]
pub struct GitFileInfo {
    pub path: String,
    pub status: GitFileStatus,
}

/// The name of `status` as the user interface knows it.
pub open spec fn status_name(status: GitFileStatus) -> Seq<char> {
    match status {
        GitFileStatus::Untracked => "untracked"@,
        GitFileStatus::Modified => "modified"@,
        GitFileStatus::Staged => "staged"@,
        GitFileStatus::Unmodified => "unmodified"@,
    }
}

impl GitFileStatus {
    /// The name of the status as the user interface knows it.
    pub fn name(&self) -> (name: &'static str)
        ensures
            name@ == status_name(*self),
    {
        match self {
            GitFileStatus::Untracked => "untracked",
            GitFileStatus::Modified => "modified",
            GitFileStatus::Staged => "staged",
            GitFileStatus::Unmodified => "unmodified",
        }
    }
}

/// The byte of the question mark.
pub const QUESTION_MARK: u8 = 63;

/// The byte of the capital letter A.
pub const LETTER_A: u8 = 65;

/// The byte of the capital letter M.
pub const LETTER_M: u8 = 77;

/// The byte of the blank.
pub const BLANK: u8 = 32;

/// The status that the two status characters stand for: `??` is untracked,
/// `A` followed by a blank or `M` is staged, everything else is modified.
pub open spec fn status_of(first: u8, second: u8) -> GitFileStatus {
    if first == QUESTION_MARK && second == QUESTION_MARK {
        GitFileStatus::Untracked
    } else if first == LETTER_A && (second == BLANK || second == LETTER_M) {
        GitFileStatus::Staged
    } else {
        GitFileStatus::Modified
    }
}

/// The lines of a text: what stands between the newlines, a carriage return
/// before a newline taken off, and what follows the last newline if that is
/// not empty.
pub open spec fn lines_of(bytes: Seq<u8>) -> Seq<Seq<u8>> {
    if unfinished(bytes).len() > 0 {
        line_bodies(bytes).push(unfinished(bytes))
    } else {
        line_bodies(bytes)
    }
}

/// What one line of the listing says.
pub enum LineReading {
    /// The line is shorter than three bytes and names no file.
    Skipped,
    /// The line cannot be cut after its second and third byte, because a
    /// character of more than one byte lies across the cut.
    Malformed,
    /// The line names a file.
    Entry(GitFileStatus, Seq<char>),
}

/// Reads one line: the status from its first two bytes, the path from what
/// follows the third byte, without the white space around it.
pub open spec fn reading_of(line: Seq<u8>) -> LineReading {
    if line.len() < 3 {
        LineReading::Skipped
    } else if is_continuation_byte(line[2]) || !valid_utf8(line.skip(3)) {
        LineReading::Malformed
    } else {
        LineReading::Entry(status_of(line[0], line[1]), trimmed(decode_utf8(line.skip(3))))
    }
}

/// The entries of `lines` in order; `None` if one of the lines is malformed.
pub open spec fn entries_of(lines: Seq<Seq<u8>>) -> Option<Seq<(GitFileStatus, Seq<char>)>>
    decreases lines.len(),
{
    if lines.len() == 0 {
        Some(Seq::empty())
    } else {
        match (entries_of(lines.drop_last()), reading_of(lines.last())) {
            (Some(front), LineReading::Entry(status, path)) => Some(front.push((status, path))),
            (Some(front), LineReading::Skipped) => Some(front),
            _ => None,
        }
    }
}

/// The files of `files` as pairs of status and path.
pub open spec fn file_views(files: Seq<GitFileInfo>) -> Seq<(GitFileStatus, Seq<char>)> {
    Seq::new(files.len(), |i: int| (files[i].status, files[i].path@))
}

/// Reads one line of the listing.
fn read_line(line: Vec<u8>) -> (reading: Option<Option<GitFileInfo>>)
    ensures
        match reading_of(line@) {
            LineReading::Skipped => reading == Some(None::<GitFileInfo>),
            LineReading::Malformed => reading is None,
            LineReading::Entry(status, path) => reading matches Some(Some(file)) && file.status
                == status && file.path@ == path,
        },
{
    if line.len() < 3 {
        return Some(None);
    }
    let first = line[0];
    let second = line[1];
    let third = line[2];
    if 0x80 <= third && third <= 0xbf {
        return None;
    }
    let mut rest: Vec<u8> = Vec::new();
    let mut i: usize = 3;
    while i < line.len()
        invariant
            3 <= i <= line.len(),
            rest@ == line@.subrange(3, i as int),
        decreases line.len() - i,
    {
        rest.push(line[i]);
        i += 1;
    }
    assert(rest@ =~= line@.skip(3));
    match text_from_utf8(rest) {
        None => None,
        Some(text) => {
            let status = if first == QUESTION_MARK && second == QUESTION_MARK {
                GitFileStatus::Untracked
            } else if first == LETTER_A && (second == BLANK || second == LETTER_M) {
                GitFileStatus::Staged
            } else {
                GitFileStatus::Modified
            };
            let path = trim(text.as_str()).to_owned();
            Some(Some(GitFileInfo { path, status }))
        },
    }
}

/// Adds what `line` says to the files read so far.
fn add_line(files: Option<Vec<GitFileInfo>>, line: Vec<u8>, Ghost(before): Ghost<Seq<Seq<u8>>>) -> (after: Option<
    Vec<GitFileInfo>,
>)
    requires
        match entries_of(before) {
            Some(entries) => files matches Some(read) && file_views(read@) == entries,
            None => files is None,
        },
    ensures
        match entries_of(before.push(line@)) {
            Some(entries) => after matches Some(read) && file_views(read@) == entries,
            None => after is None,
        },
{
    proof {
        assert(before.push(line@).drop_last() =~= before);
        assert(before.push(line@).last() == line@);
    }
    let reading = read_line(line);
    match files {
        None => None,
        Some(mut read) => match reading {
            None => None,
            Some(None) => Some(read),
            Some(Some(file)) => {
                let ghost earlier = read@;
                let ghost entry = (file.status, file.path@);
                read.push(file);
                assert(file_views(read@) =~= file_views(earlier).push(entry));
                Some(read)
            },
        },
    }
}

/// Reads the listing `output`: one file for each line of three bytes or more,
/// in the order of the lines.
///
/// Gives `None` where a line cannot be cut after its second and third byte
/// because a character lies across the cut; listings of git never hold such a
/// line.
pub fn parse_porcelain(output: &str) -> (files: Option<Vec<GitFileInfo>>)
    ensures
        match entries_of(lines_of(output.spec_bytes())) {
            Some(entries) => files matches Some(read) && file_views(read@) == entries,
            None => files is None,
        },
{
    let bytes = output.as_bytes();
    let ghost whole = bytes@;
    let mut pending: Vec<u8> = Vec::new();
    let mut lines = cut_lines(&mut pending, bytes);
    let ghost all = byte_views(lines@);
    let mut files: Option<Vec<GitFileInfo>> = Some(Vec::new());
    proof {
        assert(Seq::<u8>::empty() + whole =~= whole);
        assert(all.take(0) =~= Seq::<Seq<u8>>::empty());
        assert(file_views(Seq::<GitFileInfo>::empty()) =~= Seq::empty());
    }
    let mut i: usize = 0;
    while i < lines.len()
        invariant
            i <= lines.len(),
            lines@.len() == all.len(),
            forall|k: int| i <= k < all.len() ==> lines@[k]@ == all[k],
            match entries_of(all.take(i as int)) {
                Some(entries) => files matches Some(read) && file_views(read@) == entries,
                None => files is None,
            },
        decreases lines.len() - i,
    {
        let mut line: Vec<u8> = Vec::new();
        core::mem::swap(&mut line, &mut lines[i]);
        proof {
            assert(all.take(i as int).push(line@) =~= all.take(i + 1));
        }
        files = add_line(files, line, Ghost(all.take(i as int)));
        i += 1;
    }
    proof {
        assert(all.take(i as int) =~= all);
    }
    if pending.len() > 0 {
        files = add_line(files, pending, Ghost(all));
    }
    files
}

/// The name of the directory that marks a repository.
pub fn repository_marker() -> (name: &'static str)
    ensures
        name@ == ".git"@,
{
    ".git"
}

/// The command that prints the listing: `git status --porcelain`.
pub fn status_command() -> (invocation: Invocation)
    ensures
        invocation.program_text() == "git"@,
        invocation.arg_texts() == seq!["status"@, "--porcelain"@],
{
    let mut args: Vec<String> = Vec::new();
    args.push(String::from_str("status"));
    args.push(String::from_str("--porcelain"));
    let invocation = Invocation { program: String::from_str("git"), args };
    assert(invocation.arg_texts() =~= seq!["status"@, "--porcelain"@]);
    invocation
}

/// What is known of a directory tree when its status is asked for.
#[derive(Debug)]
pub enum TreeState {
    /// The tree holds no repository marker: git was not run.
    NotARepository,
    /// The status command ended in failure.
    StatusFailed,
    /// The status command succeeded and printed these bytes.
    Listed(Vec<u8>),
}

/// The listing to read in `state`: the text of what the status command
/// printed, with the replacement character in place of what is no UTF-8, and
/// the empty listing where the tree is no repository or the command failed.
pub open spec fn listing_in(state: TreeState) -> Seq<u8> {
    match state {
        TreeState::Listed(output) => encode_utf8(utf8_lossy(output@)),
        _ => Seq::empty(),
    }
}

/// The changed files of a tree. A tree that is no repository has none, and
/// none are reported where the status command failed; else the listing says
/// which.
pub fn read_status(state: TreeState) -> (files: Option<Vec<GitFileInfo>>)
    ensures
        match entries_of(lines_of(listing_in(state))) {
            Some(entries) => files matches Some(read) && file_views(read@) == entries,
            None => files is None,
        },
{
    match state {
        TreeState::Listed(output) => {
            let listing = text_from_utf8_lossy(output.as_slice());
            parse_porcelain(listing.as_str())
        },
        _ => {
            let read: Vec<GitFileInfo> = Vec::new();
            proof {
                assert(lines_of(Seq::empty()) =~= Seq::empty());
                assert(file_views(read@) =~= Seq::empty());
            }
            Some(read)
        },
    }
}

} // verus!
