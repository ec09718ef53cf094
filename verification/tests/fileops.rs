use xds_code::fileops::{
    check_create_directory, check_create_file, check_list, check_metadata, check_read,
    check_rename, check_sniff, check_write, entry_from_metadata, listed_entry, plan_delete,
    plan_open_in_file_manager, plan_run_file, Deletion, FileError, IoStep, PathFacts,
    MAX_FILE_SIZE,
};
use xds_code::shell::Platform;

const MISSING: PathFacts = PathFacts { exists: false, is_file: false, is_directory: false };
const A_FILE: PathFacts = PathFacts { exists: true, is_file: true, is_directory: false };
const A_DIRECTORY: PathFacts = PathFacts { exists: true, is_file: false, is_directory: true };
const A_SOCKET: PathFacts = PathFacts { exists: true, is_file: false, is_directory: false };

#[test]
fn only_directories_are_listed() {
    assert_eq!(check_list(A_DIRECTORY), Ok(()));
    assert_eq!(check_list(MISSING), Err(FileError::DirectoryMissing));
    assert_eq!(check_list(A_FILE), Err(FileError::NotADirectory));
    assert_eq!(check_list(A_SOCKET), Err(FileError::NotADirectory));
}

#[test]
fn only_files_of_ten_mebibytes_or_less_are_read() {
    assert_eq!(MAX_FILE_SIZE, 10485760);
    assert_eq!(check_read(A_FILE, Some(0)), Ok(()));
    assert_eq!(check_read(A_FILE, Some(10485760)), Ok(()));
    assert_eq!(check_read(A_FILE, Some(10485761)), Err(FileError::TooLarge));
    assert_eq!(check_read(A_FILE, Some(u64::MAX)), Err(FileError::TooLarge));
    assert_eq!(check_read(A_FILE, None), Ok(()));
    assert_eq!(check_read(MISSING, Some(1)), Err(FileError::FileMissing));
    assert_eq!(check_read(MISSING, Some(u64::MAX)), Err(FileError::FileMissing));
    assert_eq!(check_read(A_DIRECTORY, Some(1)), Err(FileError::NotAFile));
    assert_eq!(check_read(A_DIRECTORY, Some(u64::MAX)), Err(FileError::NotAFile));
}

#[test]
fn writing_needs_the_directory_above() {
    assert_eq!(check_write(Some(A_DIRECTORY)), Ok(()));
    assert_eq!(check_write(Some(A_FILE)), Ok(()));
    assert_eq!(check_write(Some(MISSING)), Err(FileError::ParentMissing));
    assert_eq!(check_write(None), Ok(()));
}

#[test]
fn nothing_is_created_over_something() {
    assert_eq!(check_create_file(MISSING), Ok(()));
    assert_eq!(check_create_file(A_FILE), Err(FileError::FileExists));
    assert_eq!(check_create_file(A_DIRECTORY), Err(FileError::FileExists));
    assert_eq!(check_create_directory(MISSING), Ok(()));
    assert_eq!(check_create_directory(A_DIRECTORY), Err(FileError::DirectoryExists));
    assert_eq!(check_create_directory(A_FILE), Err(FileError::DirectoryExists));
}

#[test]
fn directories_are_deleted_as_trees() {
    assert_eq!(plan_delete(A_DIRECTORY), Ok(Deletion::Tree));
    assert_eq!(plan_delete(A_FILE), Ok(Deletion::File));
    assert_eq!(plan_delete(A_SOCKET), Ok(Deletion::File));
    assert_eq!(plan_delete(MISSING), Err(FileError::FileMissing));
}

#[test]
fn renaming_needs_a_source_and_a_free_destination() {
    assert_eq!(check_rename(A_FILE, MISSING), Ok(()));
    assert_eq!(check_rename(A_DIRECTORY, MISSING), Ok(()));
    assert_eq!(check_rename(MISSING, MISSING), Err(FileError::SourceMissing));
    assert_eq!(check_rename(MISSING, A_FILE), Err(FileError::SourceMissing));
    assert_eq!(check_rename(A_FILE, A_FILE), Err(FileError::DestinationExists));
    assert_eq!(check_rename(A_FILE, A_DIRECTORY), Err(FileError::DestinationExists));
}

#[test]
fn metadata_and_sniffing_have_their_conditions() {
    assert_eq!(check_metadata(A_FILE), Ok(()));
    assert_eq!(check_metadata(A_DIRECTORY), Ok(()));
    assert_eq!(check_metadata(MISSING), Err(FileError::FileMissing));
    assert_eq!(check_sniff(A_FILE), Ok(()));
    assert_eq!(check_sniff(A_DIRECTORY), Err(FileError::NotAFile));
    assert_eq!(check_sniff(MISSING), Err(FileError::NotAFile));
}

#[test]
fn an_entry_is_made_from_metadata() {
    let entry = entry_from_metadata(Some("a.txt".to_string()), "/x/a.txt".to_string(), false, 9);
    assert_eq!(entry.name(), "a.txt");
    assert_eq!(entry.path(), "/x/a.txt");
    assert!(!entry.is_directory());
    assert_eq!(entry.size(), 9);
    let root = entry_from_metadata(None, "/".to_string(), true, 4096);
    assert_eq!(root.name(), "");
    assert_eq!(root.path(), "/");
    assert!(root.is_directory());
    assert_eq!(root.size(), 4096);
}

#[test]
fn the_file_manager_shows_the_directory_above_a_file() {
    let plan = plan_open_in_file_manager(
        Platform::Linux,
        A_FILE,
        "/x/a.txt".to_string(),
        Some("/x".to_string()),
    );
    match plan {
        Ok(invocation) => {
            assert_eq!(invocation.program, "xdg-open");
            assert_eq!(invocation.args, vec!["/x".to_string()]);
        }
        Err(_) => panic!("refused"),
    }
    let plan = plan_open_in_file_manager(Platform::MacOs, A_FILE, "a.txt".to_string(), None);
    match plan {
        Ok(invocation) => {
            assert_eq!(invocation.program, "open");
            assert_eq!(invocation.args, vec!["a.txt".to_string()]);
        }
        Err(_) => panic!("refused"),
    }
    let plan = plan_open_in_file_manager(
        Platform::Windows,
        A_DIRECTORY,
        "C:\\x\\y".to_string(),
        Some("C:\\x".to_string()),
    );
    match plan {
        Ok(invocation) => {
            assert_eq!(invocation.program, "explorer");
            assert_eq!(invocation.args, vec!["C:\\x\\y".to_string()]);
        }
        Err(_) => panic!("refused"),
    }
    let plan = plan_open_in_file_manager(
        Platform::Linux,
        MISSING,
        "/gone".to_string(),
        Some("/".to_string()),
    );
    assert!(matches!(plan, Err(FileError::PathMissing)));
}

#[test]
fn files_are_run_by_the_platform_opener() {
    match plan_run_file(Platform::Windows, A_FILE, "C:\\x\\a.bat".to_string()) {
        Ok(invocation) => {
            assert_eq!(invocation.program, "cmd");
            assert_eq!(
                invocation.args,
                vec![
                    "/C".to_string(),
                    "start".to_string(),
                    String::new(),
                    "C:\\x\\a.bat".to_string()
                ]
            );
        }
        Err(_) => panic!("refused"),
    }
    match plan_run_file(Platform::MacOs, A_FILE, "/x/a.app".to_string()) {
        Ok(invocation) => {
            assert_eq!(invocation.program, "open");
            assert_eq!(invocation.args, vec!["/x/a.app".to_string()]);
        }
        Err(_) => panic!("refused"),
    }
    match plan_run_file(Platform::Linux, A_FILE, "/x/a.sh".to_string()) {
        Ok(invocation) => {
            assert_eq!(invocation.program, "xdg-open");
            assert_eq!(invocation.args, vec!["/x/a.sh".to_string()]);
        }
        Err(_) => panic!("refused"),
    }
    assert!(matches!(
        plan_run_file(Platform::Linux, MISSING, "/gone".to_string()),
        Err(FileError::FileMissing)
    ));
    assert!(matches!(
        plan_run_file(Platform::Linux, A_DIRECTORY, "/x".to_string()),
        Err(FileError::NotAFile)
    ));
}

#[test]
fn file_errors_have_messages() {
    assert_eq!(FileError::DirectoryMissing.message(), "Directory does not exist");
    assert_eq!(FileError::NotADirectory.message(), "Path is not a directory");
    assert_eq!(FileError::FileMissing.message(), "File does not exist");
    assert_eq!(FileError::NotAFile.message(), "Path is not a file");
    assert_eq!(FileError::TooLarge.message(), "File too large (>10MB)");
    assert_eq!(FileError::ParentMissing.message(), "Parent directory does not exist");
    assert_eq!(FileError::FileExists.message(), "File already exists");
    assert_eq!(FileError::DirectoryExists.message(), "Directory already exists");
    assert_eq!(FileError::SourceMissing.message(), "Source file does not exist");
    assert_eq!(FileError::DestinationExists.message(), "Destination file already exists");
    assert_eq!(FileError::PathMissing.message(), "Path does not exist");
}

#[test]
fn failures_of_the_operating_system_have_messages() {
    let cases = [
        (IoStep::ReadDirectory, "Failed to read directory: denied"),
        (IoStep::ReadFile, "Failed to read file: denied"),
        (IoStep::WriteFile, "Failed to write file: denied"),
        (IoStep::CreateFile, "Failed to create file: denied"),
        (IoStep::Delete, "Failed to delete: denied"),
        (IoStep::RenameFile, "Failed to rename file: denied"),
        (IoStep::CreateDirectory, "Failed to create directory: denied"),
        (IoStep::GetFileMetadata, "Failed to get file metadata: denied"),
        (IoStep::OpenFileManager, "Failed to open file manager: denied"),
        (IoStep::RunFile, "Failed to run file: denied"),
        (IoStep::RunGit, "Failed to run git command: denied"),
    ];
    for (step, message) in cases.iter() {
        let error = FileError::Io { step: *step, detail: "denied".to_string() };
        assert_eq!(error.message(), *message);
    }
}

#[test]
fn an_entry_of_unknown_size_has_size_zero() {
    let known = listed_entry("a".to_string(), "/x/a".to_string(), false, Some(77));
    assert_eq!(known.name(), "a");
    assert_eq!(known.path(), "/x/a");
    assert!(!known.is_directory());
    assert_eq!(known.size(), 77);
    let unknown = listed_entry("d".to_string(), "/x/d".to_string(), true, None);
    assert_eq!(unknown.name(), "d");
    assert!(unknown.is_directory());
    assert_eq!(unknown.size(), 0);
}
