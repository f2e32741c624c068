use platano::fs::{DirEntry, FileMeta, FsReply, FsRequest, ListingError};
use platano::tools::edit_file::{EditFile, EditFileArgs};
use platano::tools::error::{ToolError, ToolKind};
use platano::tools::list_directory::{ListDirectory, ListDirectoryArgs};
use platano::tools::read_file::{ReadFile, ReadFileArgs};
use platano::tools::write_file::{WriteFile, WriteFileArgs};
use platano::tools::ToolStep;
use std::path::Path;
use tempfile::TempDir;

fn block<T>(f: impl std::future::Future<Output = T>) -> T {
    tokio::runtime::Builder::new_current_thread().enable_all().build().unwrap().block_on(f)
}

async fn read_dir(p: &str) -> Result<Vec<DirEntry>, ListingError> {
    let mut entries = tokio::fs::read_dir(p).await.map_err(|e| ListingError::Open(e.to_string()))?;
    let mut out = Vec::new();
    while let Some(entry) = entries.next_entry().await.map_err(|e| ListingError::Next(e.to_string()))? {
        let name = entry.file_name().to_string_lossy().into_owned();
        let is_dir = entry.file_type().await.ok().map(|t| t.is_dir());
        out.push(DirEntry { name, is_dir });
    }
    Ok(out)
}

async fn read_link(path: &str) -> Result<Option<String>, String> {
    match tokio::fs::symlink_metadata(path).await {
        Ok(m) if m.file_type().is_symlink() => tokio::fs::read_link(path)
            .await
            .map(|t| Some(t.to_string_lossy().into_owned()))
            .map_err(|e| e.to_string()),
        Ok(_) => Ok(None),
        Err(e) if e.kind() == std::io::ErrorKind::NotFound => Ok(None),
        Err(e) => Err(e.to_string()),
    }
}

fn perform(req: &FsRequest) -> FsReply {
    match req {
        FsRequest::Canonicalize(p) => FsReply::Canonical(
            block(tokio::fs::canonicalize(p))
                .map(|x| x.to_string_lossy().into_owned())
                .map_err(|e| e.to_string()),
        ),
        FsRequest::Exists(p) => FsReply::Exists(Path::new(p).exists()),
        FsRequest::Metadata(p) => FsReply::Metadata(
            block(tokio::fs::metadata(p))
                .map(|m| FileMeta { is_file: m.is_file(), is_dir: m.is_dir(), len: m.len() })
                .map_err(|e| e.to_string()),
        ),
        FsRequest::ReadToString(p) => {
            FsReply::Text(block(tokio::fs::read_to_string(p)).map_err(|e| e.to_string()))
        }
        FsRequest::Write { path, contents } => {
            FsReply::Written(block(tokio::fs::write(path, contents)).map_err(|e| e.to_string()))
        }
        FsRequest::ReadDir(p) => FsReply::Entries(block(read_dir(p))),
        FsRequest::ReadLink(p) => FsReply::Link(block(read_link(p))),
    }
}

fn edit(tool: &EditFile, path: &str, old_str: &str, new_str: &str) -> Result<String, ToolError> {
    let args = EditFileArgs { path: path.into(), old_str: old_str.into(), new_str: new_str.into() };
    let mut step = tool.start(args);
    loop {
        match step {
            ToolStep::Finish(r) => return r,
            ToolStep::Ask(run, req) => step = EditFile::step(run, perform(&req)),
        }
    }
}

fn write(tool: &WriteFile, path: &str, contents: &str) -> Result<String, ToolError> {
    let mut step = tool.start(WriteFileArgs { path: path.into(), contents: contents.into() });
    loop {
        match step {
            ToolStep::Finish(r) => return r,
            ToolStep::Ask(run, req) => step = WriteFile::step(run, perform(&req)),
        }
    }
}

fn read(tool: &ReadFile, path: &str) -> Result<String, ToolError> {
    let mut step = tool.start(ReadFileArgs { path: path.into() });
    loop {
        match step {
            ToolStep::Finish(r) => return r,
            ToolStep::Ask(run, req) => step = ReadFile::step(run, perform(&req)),
        }
    }
}

fn list(tool: &ListDirectory, path: &str) -> Result<String, ToolError> {
    let mut step = tool.start(ListDirectoryArgs { path: path.into() });
    loop {
        match step {
            ToolStep::Finish(r) => return r,
            ToolStep::Ask(run, req) => step = ListDirectory::step(run, perform(&req)),
        }
    }
}

fn root_of(dir: &TempDir) -> String {
    dir.path().to_string_lossy().into_owned()
}

fn put(dir: &TempDir, name: &str, contents: &str) {
    block(tokio::fs::write(dir.path().join(name), contents)).unwrap();
}

fn get(dir: &TempDir, name: &str) -> String {
    block(tokio::fs::read_to_string(dir.path().join(name))).unwrap()
}

#[test]
fn edits_unique_match() {
    let dir = TempDir::new().unwrap();
    put(&dir, "foo.txt", "hello world\nfoo bar\nbaz");
    let tool = EditFile::new(root_of(&dir));

    let result = edit(&tool, "foo.txt", "hello world", "goodbye world");

    assert!(result.is_ok());
    assert_eq!(get(&dir, "foo.txt"), "goodbye world\nfoo bar\nbaz");
}

#[test]
fn rejects_no_match() {
    let dir = TempDir::new().unwrap();
    put(&dir, "foo.txt", "hello");
    let tool = EditFile::new(root_of(&dir));

    let result = edit(&tool, "foo.txt", "not present", "x");

    assert!(result.is_err());
}

#[test]
fn rejects_multiple_matches() {
    let dir = TempDir::new().unwrap();
    put(&dir, "foo.txt", "x\nx\nx");
    let tool = EditFile::new(root_of(&dir));

    let result = edit(&tool, "foo.txt", "x", "y");

    assert!(result.is_err());
    assert_eq!(get(&dir, "foo.txt"), "x\nx\nx");
}

#[test]
fn edit_file_rejects_path_outside_sandbox() {
    let dir = TempDir::new().unwrap();
    let tool = EditFile::new(root_of(&dir));

    let result = edit(&tool, "../../etc/passwd", "x", "y");

    assert!(result.is_err());
}

#[test]
fn rejects_directory() {
    let dir = TempDir::new().unwrap();
    block(tokio::fs::create_dir(dir.path().join("subdir"))).unwrap();
    let tool = EditFile::new(root_of(&dir));

    let result = edit(&tool, "subdir", "x", "y");

    assert!(result.is_err());
}

#[test]
fn list_files_in_a_directory() {
    let dir = TempDir::new().unwrap();
    put(&dir, "a.txt", "");
    put(&dir, "b.txt", "");

    let tool = ListDirectory::new(root_of(&dir));

    let result = list(&tool, &root_of(&dir)).unwrap();

    assert!(result.contains("b.txt"))
}

#[test]
fn write_new_file() {
    let dir = TempDir::new().unwrap();
    let tool = WriteFile::new(root_of(&dir));

    let result = write(&tool, "hello.txt", "world");

    assert!(result.is_ok());
    let contents = get(&dir, "hello.txt");
    assert!(contents.contains("world"));
}

#[test]
fn overwrite_existing_file() {
    let dir = TempDir::new().unwrap();
    let tool = WriteFile::new(root_of(&dir));

    write(&tool, "hello.txt", "world").unwrap();

    let result = write(&tool, "hello.txt", "new contents");

    assert!(result.is_ok());
    let contents = get(&dir, "hello.txt");
    assert!(contents.contains("new contents"));
}

#[test]
fn write_file_rejects_path_outside_sandbox() {
    let dir = TempDir::new().unwrap();
    let tool = WriteFile::new(root_of(&dir));

    let result = write(&tool, "../../hacked.txt", "hacked");

    assert!(result.is_err());
}

#[test]
fn rejects_oversized_content() {
    let dir = TempDir::new().unwrap();
    let tool = WriteFile::new(root_of(&dir));

    let big = "x".repeat(2 * 1024 * 1024);
    let result = write(&tool, "big.txt", &big);

    assert!(result.is_err());
}

#[test]
fn edit_reports_byte_counts() {
    let dir = TempDir::new().unwrap();
    put(&dir, "foo.txt", "hello world\nfoo bar\nbaz");
    let tool = EditFile::new(root_of(&dir));
    let out = edit(&tool, "foo.txt", "hello world", "goodbye world").unwrap();
    assert_eq!(out, "Edited foo.txt. Replaced 11 bytes with 13 bytes (delta: +2).");
}

#[test]
fn edit_error_texts() {
    let dir = TempDir::new().unwrap();
    put(&dir, "foo.txt", "x\nx\nx");
    let tool = EditFile::new(root_of(&dir));
    let e = edit(&tool, "foo.txt", "x", "y").unwrap_err();
    assert!(matches!(e, ToolError::AmbiguousMatch { count: 3, .. }));
    assert_eq!(
        e.message(),
        "old_str matched 3 time in foo.txt. It must match exactly once. Include more surrounding context (3-5 lines) to make the match unique."
    );
    let e = edit(&tool, "foo.txt", "zzz", "y").unwrap_err();
    assert_eq!(
        e.message(),
        "old_str not found in foo.txt. The text must match exactly, including whitespace."
    );
    let canon = dir.path().canonicalize().unwrap();
    block(tokio::fs::create_dir(dir.path().join("subdir"))).unwrap();
    let e = edit(&tool, "subdir", "x", "y").unwrap_err();
    assert_eq!(e.message(), format!("Failed to stat {}", canon.join("subdir").to_string_lossy()));
}

#[test]
fn shrinking_edit_reports_negative_delta() {
    let dir = TempDir::new().unwrap();
    put(&dir, "foo.txt", "hello world");
    let tool = EditFile::new(root_of(&dir));
    let out = edit(&tool, "foo.txt", "hello world", "hi").unwrap();
    assert_eq!(out, "Edited foo.txt. Replaced 11 bytes with 2 bytes (delta: -9).");
    assert_eq!(get(&dir, "foo.txt"), "hi");
}

#[test]
fn removal_edit_reports_negative_delta() {
    let dir = TempDir::new().unwrap();
    put(&dir, "foo.txt", "keep drop keep");
    let tool = EditFile::new(root_of(&dir));
    let out = edit(&tool, "foo.txt", " drop", "").unwrap();
    assert_eq!(out, "Edited foo.txt. Replaced 5 bytes with 0 bytes (delta: -5).");
    assert_eq!(get(&dir, "foo.txt"), "keep keep");
}

#[test]
fn same_size_edit_reports_zero_delta() {
    let dir = TempDir::new().unwrap();
    put(&dir, "foo.txt", "abc");
    let tool = EditFile::new(root_of(&dir));
    let out = edit(&tool, "foo.txt", "b", "x").unwrap();
    assert_eq!(out, "Edited foo.txt. Replaced 1 bytes with 1 bytes (delta: +0).");
}

#[test]
fn write_reports_size_and_errors() {
    let dir = TempDir::new().unwrap();
    let tool = WriteFile::new(root_of(&dir));
    assert_eq!(write(&tool, "hello.txt", "world").unwrap(), "Wrote 5 bytes to hello.txt");
    let big = "x".repeat(1024 * 1024 + 1);
    let e = write(&tool, "big.txt", &big).unwrap_err();
    assert_eq!(e.message(), "Contents too large (1048577 bytes, max 1048576 bytes)");
    assert!(!dir.path().join("big.txt").exists());
    let exact = "x".repeat(1024 * 1024);
    assert!(write(&tool, "exact.txt", &exact).is_ok());
    let e = write(&tool, "../../hacked.txt", "hacked").unwrap_err();
    assert!(matches!(e, ToolError::Path(_)));
    assert!(e.message().starts_with("Path escapes project root: "));
}

#[test]
fn read_file_checks_kind_and_size() {
    let dir = TempDir::new().unwrap();
    put(&dir, "a.txt", "alpha");
    let tool = ReadFile::new(root_of(&dir));
    assert_eq!(read(&tool, "a.txt").unwrap(), "alpha");
    let p = dir.path().join("a.txt").to_string_lossy().into_owned();
    assert_eq!(read(&tool, &p).unwrap(), "alpha");
    let e = read(&tool, &root_of(&dir)).unwrap_err();
    assert_eq!(e.message(), format!("Path is not a file: {}", root_of(&dir)));
    put(&dir, "big.txt", &"y".repeat(1024 * 1024 + 5));
    let e = read(&tool, "big.txt").unwrap_err();
    assert_eq!(e.message(), "File is too large (1048581 bytes, max 1048576 bytes)");
    let e = read(&tool, "missing.txt").unwrap_err();
    assert!(e.message().starts_with("Failed to stat missing.txt: "));
}

#[test]
fn read_file_refuses_paths_outside_root() {
    let dir = TempDir::new().unwrap();
    block(tokio::fs::create_dir(dir.path().join("project"))).unwrap();
    put(&dir, "secret.txt", "hidden");
    let root = dir.path().join("project").to_string_lossy().into_owned();
    let tool = ReadFile::new(root);
    let e = read(&tool, "/etc/passwd").unwrap_err();
    assert!(matches!(e, ToolError::Path(_)));
    assert!(e.message().starts_with("Path escapes project root: "));
    let e = read(&tool, "../secret.txt").unwrap_err();
    assert!(e.message().starts_with("Path escapes project root: "));
    let e = read(&tool, "../../../../../../etc/passwd").unwrap_err();
    assert!(matches!(e, ToolError::Path(_)));
}

#[test]
fn list_directory_refuses_paths_outside_root() {
    let dir = TempDir::new().unwrap();
    block(tokio::fs::create_dir(dir.path().join("project"))).unwrap();
    let root = dir.path().join("project").to_string_lossy().into_owned();
    let tool = ListDirectory::new(root);
    let e = list(&tool, "/etc").unwrap_err();
    assert!(matches!(e, ToolError::Path(_)));
    assert!(e.message().starts_with("Path escapes project root: "));
    let e = list(&tool, "..").unwrap_err();
    assert!(e.message().starts_with("Path escapes project root: "));
    assert_eq!(list(&tool, ".").unwrap(), "Contents of .:\n");
}

#[test]
fn dangling_link_outside_is_refused() {
    let outside = TempDir::new().unwrap();
    let dir = TempDir::new().unwrap();
    let target = outside.path().join("planted.txt");
    block(tokio::fs::symlink(&target, dir.path().join("link.txt"))).unwrap();
    let tool = WriteFile::new(root_of(&dir));
    let e = write(&tool, "link.txt", "payload").unwrap_err();
    assert!(matches!(e, ToolError::Path(_)));
    assert!(e.message().starts_with("Path escapes project root: "));
    assert!(!target.exists());
    let edit_tool = EditFile::new(root_of(&dir));
    assert!(edit(&edit_tool, "link.txt", "a", "b").is_err());
    assert!(!target.exists());
}

#[test]
fn link_inside_root_to_a_file_inside_root_is_followed() {
    let dir = TempDir::new().unwrap();
    put(&dir, "real.txt", "data");
    block(tokio::fs::symlink(dir.path().join("real.txt"), dir.path().join("alias.txt"))).unwrap();
    let tool = ReadFile::new(root_of(&dir));
    assert_eq!(read(&tool, "alias.txt").unwrap(), "data");
}

#[test]
fn listing_is_sorted_and_marks_directories() {
    let dir = TempDir::new().unwrap();
    put(&dir, "b.txt", "");
    put(&dir, "a.txt", "");
    put(&dir, "B.txt", "");
    block(tokio::fs::create_dir(dir.path().join("sub"))).unwrap();
    let tool = ListDirectory::new(root_of(&dir));
    let out = list(&tool, &root_of(&dir)).unwrap();
    assert_eq!(out, format!("Contents of {}:\nB.txt\na.txt\nb.txt\nsub/", root_of(&dir)));
    put(&dir, "file", "");
    let f = dir.path().join("file").to_string_lossy().into_owned();
    let e = list(&tool, &f).unwrap_err();
    assert_eq!(e.message(), format!("Path is not a directory: {}", f));
}

#[test]
fn empty_directory_lists_only_heading() {
    let dir = TempDir::new().unwrap();
    let tool = ListDirectory::new(root_of(&dir));
    assert_eq!(list(&tool, &root_of(&dir)).unwrap(), format!("Contents of {}:\n", root_of(&dir)));
}

#[test]
fn tool_names_and_argument_errors() {
    let root = String::from("/tmp");
    assert_eq!(EditFile::new(root.clone()).name(), "edit");
    assert_eq!(WriteFile::new(root.clone()).name(), "write");
    assert_eq!(ReadFile::new(root.clone()).name(), "read_file");
    assert_eq!(ListDirectory::new(root).name(), "list_directory");
    let e = ToolError::InvalidArguments { tool: ToolKind::Read, detail: "missing field `path`".into() };
    assert_eq!(e.message(), "Invalid arguments for read_file: missing field `path`");
}

#[test]
fn edit_steps_follow_the_protocol() {
    let tool = EditFile::new("/sandbox".into());
    let args = EditFileArgs { path: "a.txt".into(), old_str: "b".into(), new_str: "c".into() };
    let (run, req) = match tool.start(args) {
        ToolStep::Ask(run, req) => (run, req),
        ToolStep::Finish(_) => panic!("finished early"),
    };
    assert!(matches!(&req, FsRequest::Canonicalize(p) if p == "/sandbox"));
    let step = EditFile::step(run, FsReply::Canonical(Ok("/real".into())));
    let (run, req) = match step {
        ToolStep::Ask(run, req) => (run, req),
        ToolStep::Finish(_) => panic!("finished early"),
    };
    assert!(matches!(&req, FsRequest::Exists(p) if p == "/real/a.txt"));
    let step = EditFile::step(run, FsReply::Exists(true));
    let (run, _) = match step {
        ToolStep::Ask(run, req) => (run, req),
        ToolStep::Finish(_) => panic!("finished early"),
    };
    let step = EditFile::step(run, FsReply::Canonical(Ok("/elsewhere/a.txt".into())));
    match step {
        ToolStep::Finish(Err(e)) => {
            assert_eq!(e.message(), "Path escapes project root: /elsewhere/a.txt")
        }
        _ => panic!("escape not refused"),
    }
}

#[test]
fn writing_twice_is_writing_once() {
    let dir = TempDir::new().unwrap();
    let tool = WriteFile::new(root_of(&dir));
    let first = write(&tool, "twice.txt", "same").unwrap();
    let after_first = get(&dir, "twice.txt");
    let second = write(&tool, "twice.txt", "same").unwrap();
    assert_eq!(first, second);
    assert_eq!(get(&dir, "twice.txt"), after_first);
    let lister = ListDirectory::new(root_of(&dir));
    assert_eq!(list(&lister, ".").unwrap(), "Contents of .:\ntwice.txt");
}

#[test]
fn write_through_dangling_link_inside_root() {
    let dir = TempDir::new().unwrap();
    block(tokio::fs::symlink("real.txt", dir.path().join("alias.txt"))).unwrap();
    let tool = WriteFile::new(root_of(&dir));
    assert_eq!(write(&tool, "alias.txt", "data").unwrap(), "Wrote 4 bytes to alias.txt");
    assert_eq!(get(&dir, "real.txt"), "data");
}

#[test]
fn read_gives_back_what_write_wrote() {
    let dir = TempDir::new().unwrap();
    let writer = WriteFile::new(root_of(&dir));
    let reader = ReadFile::new(root_of(&dir));
    write(&writer, "note.txt", "line one\nline two").unwrap();
    assert_eq!(read(&reader, "note.txt").unwrap(), "line one\nline two");
}
