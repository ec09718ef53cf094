use xds_code::git::{
    parse_porcelain, read_status, repository_marker, status_command, TreeState,
};
use xds_code::{GitFileInfo, GitFileStatus};

fn listed(files: &Option<Vec<GitFileInfo>>) -> Vec<(GitFileStatus, String)> {
    match files {
        Some(files) => files.iter().map(|file| (file.status, file.path.clone())).collect(),
        None => panic!("the listing was refused"),
    }
}

fn file(status: GitFileStatus, path: &str) -> (GitFileStatus, String) {
    (status, path.to_string())
}

#[test]
fn each_line_names_a_file() {
    let files = parse_porcelain("?? new.txt\n M src/main.rs\nA  added.rs\n");
    assert_eq!(
        listed(&files),
        vec![
            file(GitFileStatus::Untracked, "new.txt"),
            file(GitFileStatus::Modified, "src/main.rs"),
            file(GitFileStatus::Staged, "added.rs"),
        ]
    );
}

#[test]
fn status_codes_map_to_statuses() {
    let cases = [
        ("??", GitFileStatus::Untracked),
        (" M", GitFileStatus::Modified),
        ("M ", GitFileStatus::Modified),
        ("MM", GitFileStatus::Modified),
        ("A ", GitFileStatus::Staged),
        ("AM", GitFileStatus::Staged),
        ("AD", GitFileStatus::Modified),
        (" D", GitFileStatus::Modified),
        ("D ", GitFileStatus::Modified),
        ("R ", GitFileStatus::Modified),
        ("UU", GitFileStatus::Modified),
        ("!!", GitFileStatus::Modified),
        ("? ", GitFileStatus::Modified),
        (" ?", GitFileStatus::Modified),
        (" A", GitFileStatus::Modified),
    ];
    for (code, status) in cases.iter() {
        let line = format!("{} path/to/file\n", code);
        assert_eq!(listed(&parse_porcelain(&line)), vec![file(*status, "path/to/file")]);
    }
}

#[test]
fn short_and_empty_lines_are_skipped() {
    let files = parse_porcelain("\n??\nM\n\n?? a\n ?\n");
    assert_eq!(listed(&files), vec![file(GitFileStatus::Untracked, "a")]);
    assert_eq!(listed(&parse_porcelain("")), vec![]);
    assert_eq!(listed(&parse_porcelain("\n\n\n")), vec![]);
}

#[test]
fn a_line_of_three_bytes_names_the_empty_path() {
    assert_eq!(listed(&parse_porcelain("?? \n")), vec![file(GitFileStatus::Untracked, "")]);
    assert_eq!(listed(&parse_porcelain("A  ")), vec![file(GitFileStatus::Staged, "")]);
}

#[test]
fn the_third_byte_is_not_looked_at() {
    assert_eq!(listed(&parse_porcelain("??xname\n")), vec![file(GitFileStatus::Untracked, "name")]);
}

#[test]
fn the_path_is_trimmed() {
    let files = parse_porcelain("??   spaced out.txt  \n M \ttabbed\t\n");
    assert_eq!(
        listed(&files),
        vec![
            file(GitFileStatus::Untracked, "spaced out.txt"),
            file(GitFileStatus::Modified, "tabbed"),
        ]
    );
    let files = parse_porcelain("?? \u{a0}\u{3000}wide\u{2003}\u{85}\n");
    assert_eq!(listed(&files), vec![file(GitFileStatus::Untracked, "wide")]);
    let files = parse_porcelain("?? \u{200b}zero width\u{200b}\n");
    assert_eq!(
        listed(&files),
        vec![file(GitFileStatus::Untracked, "\u{200b}zero width\u{200b}")]
    );
}

#[test]
fn the_last_line_needs_no_newline() {
    let files = parse_porcelain("?? a\n M b");
    assert_eq!(
        listed(&files),
        vec![file(GitFileStatus::Untracked, "a"), file(GitFileStatus::Modified, "b")]
    );
}

#[test]
fn carriage_returns_do_not_reach_the_path() {
    let files = parse_porcelain("?? a.txt\r\n M b.txt\r\n");
    assert_eq!(
        listed(&files),
        vec![file(GitFileStatus::Untracked, "a.txt"), file(GitFileStatus::Modified, "b.txt")]
    );
    assert_eq!(listed(&parse_porcelain("??\r\n")), vec![]);
}

#[test]
fn paths_may_hold_any_characters() {
    let files = parse_porcelain("?? d\u{e9}j\u{e0} vu/\u{4e16}\u{754c}.txt\n");
    assert_eq!(
        listed(&files),
        vec![file(GitFileStatus::Untracked, "d\u{e9}j\u{e0} vu/\u{4e16}\u{754c}.txt")]
    );
}

#[test]
fn a_line_cut_inside_a_character_is_refused() {
    assert!(parse_porcelain("a\u{4e16}b\n").is_none());
    assert!(parse_porcelain("ab\u{e9}\n").is_none());
    assert!(parse_porcelain("\u{4e16}x\n").is_none());
    assert!(parse_porcelain("?? fine\na\u{4e16}b\n").is_none());
    assert!(parse_porcelain("a\u{4e16}b\n?? fine\n").is_none());
    assert!(parse_porcelain("a\u{e9} x\n").is_none());
    assert!(parse_porcelain("ab \u{e9}\n").is_some());
    assert_eq!(
        listed(&parse_porcelain("\u{e9} x\n")),
        vec![file(GitFileStatus::Modified, "x")]
    );
}

#[test]
fn only_a_listing_reports_files() {
    assert_eq!(listed(&read_status(TreeState::NotARepository)), vec![]);
    assert_eq!(listed(&read_status(TreeState::StatusFailed)), vec![]);
    assert_eq!(
        listed(&read_status(TreeState::Listed(b"?? a\n M b\n".to_vec()))),
        vec![file(GitFileStatus::Untracked, "a"), file(GitFileStatus::Modified, "b")]
    );
    assert_eq!(listed(&read_status(TreeState::Listed(Vec::new()))), vec![]);
    assert!(read_status(TreeState::Listed("a\u{4e16}b\n".as_bytes().to_vec())).is_none());
}

#[test]
fn bytes_that_are_no_text_are_replaced_in_the_path() {
    assert_eq!(
        listed(&read_status(TreeState::Listed(b"?? a\xffb\n".to_vec()))),
        vec![file(GitFileStatus::Untracked, "a\u{fffd}b")]
    );
    assert_eq!(
        listed(&read_status(TreeState::Listed(b" M caf\xc3\xa9 \xe4\xb8\n".to_vec()))),
        vec![file(GitFileStatus::Modified, "caf\u{e9} \u{fffd}")]
    );
    assert!(read_status(TreeState::Listed(b"\xff? a\n".to_vec())).is_none());
    assert_eq!(
        listed(&read_status(TreeState::Listed("?? d\u{e9}j\u{e0}\n".as_bytes().to_vec()))),
        vec![file(GitFileStatus::Untracked, "d\u{e9}j\u{e0}")]
    );
}

#[test]
fn the_status_command_is_git_status_porcelain() {
    let invocation = status_command();
    assert_eq!(invocation.program, "git");
    assert_eq!(invocation.args, vec!["status".to_string(), "--porcelain".to_string()]);
    assert_eq!(repository_marker(), ".git");
}

#[test]
fn statuses_have_names() {
    assert_eq!(GitFileStatus::Untracked.name(), "untracked");
    assert_eq!(GitFileStatus::Modified.name(), "modified");
    assert_eq!(GitFileStatus::Staged.name(), "staged");
    assert_eq!(GitFileStatus::Unmodified.name(), "unmodified");
}

#[test]
fn white_space_is_what_unicode_says_it_is() {
    let white: [u32; 25] = [
        0x09, 0x0a, 0x0b, 0x0c, 0x0d, 0x20, 0x85, 0xa0, 0x1680, 0x2000, 0x2001, 0x2002, 0x2003,
        0x2004, 0x2005, 0x2006, 0x2007, 0x2008, 0x2009, 0x200a, 0x2028, 0x2029, 0x202f, 0x205f,
        0x3000,
    ];
    for code in 0..=0x10ffffu32 {
        let c = match char::from_u32(code) {
            Some(c) => c,
            None => continue,
        };
        if c == '\n' || c == '\r' {
            continue;
        }
        let line = format!("?? {}x{}", c, c);
        let expected = if white.contains(&code) {
            "x".to_string()
        } else {
            format!("{}x{}", c, c)
        };
        let files = parse_porcelain(&line);
        assert_eq!(listed(&files), vec![file(GitFileStatus::Untracked, &expected)]);
    }
    assert_eq!(
        listed(&parse_porcelain("?? \r\u{b}x\u{c}\r \n")),
        vec![file(GitFileStatus::Untracked, "x")]
    );
}
