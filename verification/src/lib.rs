//! Process supervision core of a desktop code-editor shell.
//!
//! The crate holds the decisions of the editor's backend: which shell runs a
//! command on which platform, how a byte stream from a pipe becomes lines, when
//! a watched process counts as finished, and what the single process slot holds
//! after each operation. Beside that core stand the rules of the editor's
//! smaller services: directory listings, file operations, the sniffing of
//! binary content, the status listing of git, and the settings. Everything
//! that touches the operating system is left to the caller, which hands plain
//! values in and carries the answers out.

pub mod fileops;
pub mod git;
pub mod listing;
pub mod session;
pub mod settings;
pub mod shell;
pub mod sniff;
pub mod streamer;
pub mod supervisor;
pub mod text;
pub mod watcher;

pub use git::{GitFileInfo, GitFileStatus};
pub use listing::{DirectoryContents, FileEntry};
pub use settings::AppSettings;
