//! The rules of the editor's file operations.
//!
//! The caller asks the file system what is at a path and hands the answers in;
//! the functions here say whether the operation may go ahead, and with which
//! error it is refused.

use vstd::prelude::*;
use vstd::string::*;
use crate::listing::{FileEntry, FileEntryView};
use crate::shell::{Invocation, Platform};

verus! {

/// The largest file that is read into the editor, in bytes: ten mebibytes.
pub const MAX_FILE_SIZE: u64 = 10 * 1024 * 1024;

/// What the file system says of a path.
#[derive(Clone, Copy, Debug, PartialEq, Eq, Structural)]
pub struct PathFacts {
    pub exists: bool,
    pub is_file: bool,
    pub is_directory: bool,
}

/// The step of an operation at which the operating system failed.
#[derive(Clone, Copy, Debug, PartialEq, Eq, Structural)]
pub enum IoStep {
    ReadDirectory,
    ReadFile,
    WriteFile,
    CreateFile,
    Delete,
    RenameFile,
    CreateDirectory,
    GetFileMetadata,
    OpenFileManager,
    RunFile,
    RunGit,
}

/// Why a file operation was refused or failed.
#[derive(Debug, PartialEq, Eq)]
pub enum FileError {
    DirectoryMissing,
    NotADirectory,
    FileMissing,
    NotAFile,
    TooLarge,
    ParentMissing,
    FileExists,
    DirectoryExists,
    SourceMissing,
    DestinationExists,
    PathMissing,
    /// The operating system failed at `step` and said `detail`.
    Io { step: IoStep, detail: String },
}

/// How the message for a failure at `step` begins.
pub open spec fn failure_prefix(step: IoStep) -> Seq<char> {
    match step {
        IoStep::ReadDirectory => "Failed to read directory: "@,
        IoStep::ReadFile => "Failed to read file: "@,
        IoStep::WriteFile => "Failed to write file: "@,
        IoStep::CreateFile => "Failed to create file: "@,
        IoStep::Delete => "Failed to delete: "@,
        IoStep::RenameFile => "Failed to rename file: "@,
        IoStep::CreateDirectory => "Failed to create directory: "@,
        IoStep::GetFileMetadata => "Failed to get file metadata: "@,
        IoStep::OpenFileManager => "Failed to open file manager: "@,
        IoStep::RunFile => "Failed to run file: "@,
        IoStep::RunGit => "Failed to run git command: "@,
    }
}

impl IoStep {
    /// How the message for a failure at this step begins.
    pub fn prefix(&self) -> (prefix: &'static str)
        ensures
            prefix@ == failure_prefix(*self),
    {
        match self {
            IoStep::ReadDirectory => "Failed to read directory: ",
            IoStep::ReadFile => "Failed to read file: ",
            IoStep::WriteFile => "Failed to write file: ",
            IoStep::CreateFile => "Failed to create file: ",
            IoStep::Delete => "Failed to delete: ",
            IoStep::RenameFile => "Failed to rename file: ",
            IoStep::CreateDirectory => "Failed to create directory: ",
            IoStep::GetFileMetadata => "Failed to get file metadata: ",
            IoStep::OpenFileManager => "Failed to open file manager: ",
            IoStep::RunFile => "Failed to run file: ",
            IoStep::RunGit => "Failed to run git command: ",
        }
    }
}

impl FileError {
    /// The message for the user, as a text.
    pub open spec fn message_text(&self) -> Seq<char> {
        match self {
            FileError::DirectoryMissing => "Directory does not exist"@,
            FileError::NotADirectory => "Path is not a directory"@,
            FileError::FileMissing => "File does not exist"@,
            FileError::NotAFile => "Path is not a file"@,
            FileError::TooLarge => "File too large (>10MB)"@,
            FileError::ParentMissing => "Parent directory does not exist"@,
            FileError::FileExists => "File already exists"@,
            FileError::DirectoryExists => "Directory already exists"@,
            FileError::SourceMissing => "Source file does not exist"@,
            FileError::DestinationExists => "Destination file already exists"@,
            FileError::PathMissing => "Path does not exist"@,
            FileError::Io { step, detail } => failure_prefix(*step) + detail@,
        }
    }

    /// The message for the user.
    pub fn message(&self) -> (message: String)
        ensures
            message@ == self.message_text(),
    {
        match self {
            FileError::DirectoryMissing => String::from_str("Directory does not exist"),
            FileError::NotADirectory => String::from_str("Path is not a directory"),
            FileError::FileMissing => String::from_str("File does not exist"),
            FileError::NotAFile => String::from_str("Path is not a file"),
            FileError::TooLarge => String::from_str("File too large (>10MB)"),
            FileError::ParentMissing => String::from_str("Parent directory does not exist"),
            FileError::FileExists => String::from_str("File already exists"),
            FileError::DirectoryExists => String::from_str("Directory already exists"),
            FileError::SourceMissing => String::from_str("Source file does not exist"),
            FileError::DestinationExists => String::from_str("Destination file already exists"),
            FileError::PathMissing => String::from_str("Path does not exist"),
            FileError::Io { step, detail } => String::from_str(step.prefix()).concat(
                detail.as_str(),
            ),
        }
    }
}

/// Whether the directory at a path can be listed: it exists and is a
/// directory.
pub fn check_list(facts: PathFacts) -> (checked: Result<(), FileError>)
    ensures
        checked == if !facts.exists {
            Err::<(), FileError>(FileError::DirectoryMissing)
        } else if !facts.is_directory {
            Err(FileError::NotADirectory)
        } else {
            Ok(())
        },
{
    if !facts.exists {
        Err(FileError::DirectoryMissing)
    } else if !facts.is_directory {
        Err(FileError::NotADirectory)
    } else {
        Ok(())
    }
}

/// Whether the file at a path can be read into the editor: it exists, is a
/// file, and is not larger than `MAX_FILE_SIZE`. `size` is `None` where the
/// file system did not tell the size; such a file is not held to the limit.
pub fn check_read(facts: PathFacts, size: Option<u64>) -> (checked: Result<(), FileError>)
    ensures
        checked == if !facts.exists {
            Err::<(), FileError>(FileError::FileMissing)
        } else if !facts.is_file {
            Err(FileError::NotAFile)
        } else if size matches Some(bytes) && bytes > MAX_FILE_SIZE {
            Err(FileError::TooLarge)
        } else {
            Ok(())
        },
{
    if !facts.exists {
        return Err(FileError::FileMissing);
    }
    if !facts.is_file {
        return Err(FileError::NotAFile);
    }
    match size {
        Some(bytes) => {
            if bytes > MAX_FILE_SIZE {
                return Err(FileError::TooLarge);
            }
        },
        None => {},
    }
    Ok(())
}

/// Whether a file can be written at a path: the directory above it, if the
/// path has one, exists.
pub fn check_write(parent: Option<PathFacts>) -> (checked: Result<(), FileError>)
    ensures
        checked == if parent matches Some(facts) && !facts.exists {
            Err::<(), FileError>(FileError::ParentMissing)
        } else {
            Ok(())
        },
{
    match parent {
        Some(facts) => {
            if !facts.exists {
                return Err(FileError::ParentMissing);
            }
        },
        None => {},
    }
    Ok(())
}

/// Whether a file can be created at a path: nothing is there yet.
pub fn check_create_file(facts: PathFacts) -> (checked: Result<(), FileError>)
    ensures
        checked == if facts.exists {
            Err::<(), FileError>(FileError::FileExists)
        } else {
            Ok(())
        },
{
    if facts.exists {
        Err(FileError::FileExists)
    } else {
        Ok(())
    }
}

/// Whether a directory can be created at a path: nothing is there yet.
pub fn check_create_directory(facts: PathFacts) -> (checked: Result<(), FileError>)
    ensures
        checked == if facts.exists {
            Err::<(), FileError>(FileError::DirectoryExists)
        } else {
            Ok(())
        },
{
    if facts.exists {
        Err(FileError::DirectoryExists)
    } else {
        Ok(())
    }
}

/// How something is deleted.
#[derive(Clone, Copy, Debug, PartialEq, Eq, Structural)]
pub enum Deletion {
    /// Remove the directory and all that is in it.
    Tree,
    /// Remove the file.
    File,
}

/// How to delete what is at a path: a directory with all that is in it,
/// anything else as a file. What does not exist cannot be deleted.
pub fn plan_delete(facts: PathFacts) -> (plan: Result<Deletion, FileError>)
    ensures
        plan == if !facts.exists {
            Err::<Deletion, FileError>(FileError::FileMissing)
        } else if facts.is_directory {
            Ok(Deletion::Tree)
        } else {
            Ok(Deletion::File)
        },
{
    if !facts.exists {
        Err(FileError::FileMissing)
    } else if facts.is_directory {
        Ok(Deletion::Tree)
    } else {
        Ok(Deletion::File)
    }
}

/// Whether `source` can be renamed to `destination`: the source exists and
/// nothing is at the destination.
pub fn check_rename(source: PathFacts, destination: PathFacts) -> (checked: Result<(), FileError>)
    ensures
        checked == if !source.exists {
            Err::<(), FileError>(FileError::SourceMissing)
        } else if destination.exists {
            Err(FileError::DestinationExists)
        } else {
            Ok(())
        },
{
    if !source.exists {
        Err(FileError::SourceMissing)
    } else if destination.exists {
        Err(FileError::DestinationExists)
    } else {
        Ok(())
    }
}

/// Whether the metadata of a path can be asked for: the path exists.
pub fn check_metadata(facts: PathFacts) -> (checked: Result<(), FileError>)
    ensures
        checked == if !facts.exists {
            Err::<(), FileError>(FileError::FileMissing)
        } else {
            Ok(())
        },
{
    if !facts.exists {
        Err(FileError::FileMissing)
    } else {
        Ok(())
    }
}

/// Whether the content at a path can be sniffed: the path is a file.
pub fn check_sniff(facts: PathFacts) -> (checked: Result<(), FileError>)
    ensures
        checked == if !facts.is_file {
            Err::<(), FileError>(FileError::NotAFile)
        } else {
            Ok(())
        },
{
    if !facts.is_file {
        Err(FileError::NotAFile)
    } else {
        Ok(())
    }
}

/// The entry for a path from its metadata. A path without a last component
/// has the empty name.
pub fn entry_from_metadata(
    file_name: Option<String>,
    path: String,
    is_directory: bool,
    size: u64,
) -> (entry: FileEntry)
    ensures
        entry@ == (FileEntryView {
            name: match file_name {
                Some(name) => name@,
                None => Seq::empty(),
            },
            path: path@,
            is_directory,
            size,
        }),
{
    let name = match file_name {
        Some(name) => name,
        None => String::new(),
    };
    FileEntry::new(name, path, is_directory, size)
}

/// The entry for something found in a directory. Where the file system does
/// not tell the size, the entry has size zero.
pub fn listed_entry(name: String, path: String, is_directory: bool, size: Option<u64>) -> (entry:
    FileEntry)
    ensures
        entry@ == (FileEntryView {
            name: name@,
            path: path@,
            is_directory,
            size: match size {
                Some(bytes) => bytes,
                None => 0,
            },
        }),
{
    let size = match size {
        Some(bytes) => bytes,
        None => 0,
    };
    FileEntry::new(name, path, is_directory, size)
}

/// The program that shows a directory in the file manager of `platform`, and
/// that opens a file with the program the user has chosen for it.
pub open spec fn opener_program(platform: Platform) -> Seq<char> {
    match platform {
        Platform::Windows => "explorer"@,
        Platform::MacOs => "open"@,
        Platform::Linux => "xdg-open"@,
    }
}

/// What the file manager is to show for a path: the directory above a file,
/// or the file itself where nothing is above it; a directory itself.
pub open spec fn shown_for(facts: PathFacts, path: Seq<char>, parent: Option<String>) -> Seq<char> {
    if facts.is_file && parent is Some {
        parent->0@
    } else {
        path
    }
}

/// How to show `path` in the file manager. `parent` is the directory above
/// the path, if it has one.
pub fn plan_open_in_file_manager(
    platform: Platform,
    facts: PathFacts,
    path: String,
    parent: Option<String>,
) -> (plan: Result<Invocation, FileError>)
    ensures
        match plan {
            Ok(invocation) => {
                &&& facts.exists
                &&& invocation.program_text() == opener_program(platform)
                &&& invocation.arg_texts() == seq![shown_for(facts, path@, parent)]
            },
            Err(error) => !facts.exists && error == FileError::PathMissing,
        },
{
    if !facts.exists {
        return Err(FileError::PathMissing);
    }
    let shown = if facts.is_file {
        match parent {
            Some(above) => above,
            None => path,
        }
    } else {
        path
    };
    let program = match platform {
        Platform::Windows => "explorer",
        Platform::MacOs => "open",
        Platform::Linux => "xdg-open",
    };
    let mut args: Vec<String> = Vec::new();
    args.push(shown);
    let invocation = Invocation { program: String::from_str(program), args };
    assert(invocation.arg_texts() =~= seq![shown_for(facts, path@, parent)]);
    Ok(invocation)
}

/// The program that runs a file on `platform`.
pub open spec fn runner_program(platform: Platform) -> Seq<char> {
    match platform {
        Platform::Windows => "cmd"@,
        Platform::MacOs => "open"@,
        Platform::Linux => "xdg-open"@,
    }
}

/// The arguments with which the runner of `platform` runs the file `path`.
pub open spec fn runner_args(platform: Platform, path: Seq<char>) -> Seq<Seq<char>> {
    match platform {
        Platform::Windows => seq!["/C"@, "start"@, ""@, path],
        _ => seq![path],
    }
}

/// How to run the file at `path` with the program the user has chosen for
/// it.
pub fn plan_run_file(platform: Platform, facts: PathFacts, path: String) -> (plan: Result<
    Invocation,
    FileError,
>)
    ensures
        match plan {
            Ok(invocation) => {
                &&& facts.exists && facts.is_file
                &&& invocation.program_text() == runner_program(platform)
                &&& invocation.arg_texts() == runner_args(platform, path@)
            },
            Err(error) => error == if !facts.exists {
                FileError::FileMissing
            } else {
                FileError::NotAFile
            } && !(facts.exists && facts.is_file),
        },
{
    if !facts.exists {
        return Err(FileError::FileMissing);
    }
    if !facts.is_file {
        return Err(FileError::NotAFile);
    }
    let mut args: Vec<String> = Vec::new();
    let program = match platform {
        Platform::Windows => {
            args.push(String::from_str("/C"));
            args.push(String::from_str("start"));
            args.push(String::from_str(""));
            "cmd"
        },
        Platform::MacOs => "open",
        Platform::Linux => "xdg-open",
    };
    args.push(path);
    let invocation = Invocation { program: String::from_str(program), args };
    assert(invocation.arg_texts() =~= runner_args(platform, path@));
    Ok(invocation)
}

} // verus!
