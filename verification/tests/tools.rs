use mentat::tools::browser::BrowserTool;
use mentat::tools::fs::{FileCommand, FilePatcherTool};

#[test]
fn test_file_patcher_security() {
    let result = FilePatcherTool::plan("WRITE ../../../etc/passwd\nhacked");
    assert!(result.is_err());
    assert!(result.unwrap_err().contains("Path traversal"));
}

#[test]
fn file_patcher_read_and_write_commands() {
    assert_eq!(
        FilePatcherTool::plan("  READ   notes/a.txt  "),
        Ok(FileCommand::Read { path: "notes/a.txt".to_string() })
    );
    assert_eq!(
        FilePatcherTool::plan("WRITE out.txt\r\nline one\r\nline two\n"),
        Ok(FileCommand::Write {
            path: "out.txt".to_string(),
            content: "line one\nline two".to_string(),
        })
    );
    assert_eq!(
        FilePatcherTool::plan("WRITE empty.txt"),
        Ok(FileCommand::Write { path: "empty.txt".to_string(), content: String::new() })
    );
}

#[test]
fn file_patcher_errors() {
    assert_eq!(
        FilePatcherTool::plan(""),
        Err("Empty arguments for file_patcher. Expected 'READ <path>' or 'WRITE <path>\\n<content>'"
            .to_string())
    );
    assert_eq!(FilePatcherTool::plan("READ"), Err("READ command requires a file path".to_string()));
    assert_eq!(FilePatcherTool::plan("WRITE\nx"), Err("WRITE command requires a file path".to_string()));
    assert_eq!(
        FilePatcherTool::plan("DELETE a"),
        Err("Unknown file_patcher command: 'DELETE'. Supported commands are READ and WRITE".to_string())
    );
    assert_eq!(
        FilePatcherTool::read_outcome("a", Err("boom".to_string())),
        Err("Failed to read file 'a': boom".to_string())
    );
    assert_eq!(
        FilePatcherTool::write_outcome("a", Ok(())),
        Ok("Successfully wrote to 'a'".to_string())
    );
    assert_eq!(
        FilePatcherTool::create_dirs_failed("a/b", "denied"),
        "Failed to create parent directories for 'a/b': denied"
    );
}

#[test]
fn browser_url_and_preview() {
    assert_eq!(BrowserTool::target_url("  https://example.com \n"), Ok("https://example.com".to_string()));
    assert_eq!(
        BrowserTool::target_url("   "),
        Err("BrowserTool requires a URL argument".to_string())
    );
    assert_eq!(BrowserTool::page_preview("abc"), "Page content preview:\nabc...");
    let long: String = std::iter::repeat('é').take(600).collect();
    let expected = format!("Page content preview:\n{}...", "é".repeat(500));
    assert_eq!(BrowserTool::page_preview(&long), expected);
    assert_eq!(
        BrowserTool::fetch_failed("u", "dns"),
        "Failed to fetch URL 'u': dns"
    );
    assert_eq!(BrowserTool::body_failed("eof"), "Failed to read response body: eof");
}

#[test]
fn file_patcher_never_writes_through_parent_dir() {
    let refused = "Path traversal (..) is not allowed for security reasons".to_string();
    assert_eq!(FilePatcherTool::plan("WRITE notes/../secret\nx"), Err(refused.clone()));
    assert_eq!(FilePatcherTool::plan("WRITE ..\nx"), Err(refused));
    assert_eq!(
        FilePatcherTool::plan("READ ../notes.txt"),
        Ok(FileCommand::Read { path: "../notes.txt".to_string() })
    );
}
