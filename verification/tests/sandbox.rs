use platano::fs::{FileMeta, FsReply, FsRequest};
use platano::path::{join_paths, path_file_name, path_parent, starts_with};
use platano::sandbox::{resolve_safe_path, PathError, Resolution, SafePath};
use std::path::Path;
use tempfile::TempDir;

fn block<T>(f: impl std::future::Future<Output = T>) -> T {
    tokio::runtime::Builder::new_current_thread().enable_all().build().unwrap().block_on(f)
}

async fn read_link(path: &str) -> Result<Option<String>, String> {
    match tokio::fs::symlink_metadata(path).await {
        Ok(m) if m.file_type().is_symlink() => tokio::fs::read_link(path)
            .await
            .map(|t| Some(t.to_string_lossy().into_owned()))
            .map_err(|e| e.to_string()),
        Ok(_) => Ok(None),
        Err(e) if e.kind() == std::io::ErrorKind::NotFound => Ok(None),
        Err(e) => Err(e.to_string()),
    }
}

fn perform(req: &FsRequest) -> FsReply {
    match req {
        FsRequest::Canonicalize(p) => FsReply::Canonical(
            block(tokio::fs::canonicalize(p))
                .map(|x| x.to_string_lossy().into_owned())
                .map_err(|e| e.to_string()),
        ),
        FsRequest::Exists(p) => FsReply::Exists(Path::new(p).exists()),
        FsRequest::Metadata(p) => FsReply::Metadata(
            block(tokio::fs::metadata(p))
                .map(|m| FileMeta { is_file: m.is_file(), is_dir: m.is_dir(), len: m.len() })
                .map_err(|e| e.to_string()),
        ),
        FsRequest::ReadToString(p) => {
            FsReply::Text(block(tokio::fs::read_to_string(p)).map_err(|e| e.to_string()))
        }
        FsRequest::Write { path, contents } => {
            FsReply::Written(block(tokio::fs::write(path, contents)).map_err(|e| e.to_string()))
        }
        FsRequest::ReadDir(_) => panic!("no listing during path resolution"),
        FsRequest::ReadLink(p) => FsReply::Link(block(read_link(p))),
    }
}

fn resolve_safe(root: &Path, requested: &str) -> Result<String, PathError> {
    let (mut state, mut req) = SafePath::start(&root.to_string_lossy(), requested);
    loop {
        let reply = perform(&req);
        match resolve_safe_path(state, reply) {
            Resolution::Ask(s, q) => {
                state = s;
                req = q;
            }
            Resolution::Done(r) => return r,
        }
    }
}

#[test]
fn resolves_path_inside_root() {
    let dir = TempDir::new().unwrap();
    block(tokio::fs::write(dir.path().join("hello.txt"), "")).unwrap();

    let resolved = resolve_safe(dir.path(), "hello.txt").unwrap();
    assert!(Path::new(&resolved).starts_with(dir.path().canonicalize().unwrap()));
}

#[test]
fn rejects_parent_escape() {
    let dir = TempDir::new().unwrap();
    let result = resolve_safe(dir.path(), "../etc/passwd");
    assert!(result.is_err());
}

#[test]
fn rejects_absolute_path_escape() {
    let dir = TempDir::new().unwrap();
    let result = resolve_safe(dir.path(), "/etc/passwd");
    assert!(result.is_err());
}

#[test]
fn resolves_new_file_through_its_parent() {
    let dir = TempDir::new().unwrap();
    block(tokio::fs::create_dir(dir.path().join("sub"))).unwrap();
    let root = dir.path().canonicalize().unwrap();
    let resolved = resolve_safe(dir.path(), "sub/new.txt").unwrap();
    assert_eq!(resolved, root.join("sub").join("new.txt").to_string_lossy());
}

#[test]
fn parent_escape_of_new_file_names_the_target() {
    let dir = TempDir::new().unwrap();
    block(tokio::fs::create_dir(dir.path().join("inner"))).unwrap();
    let inner = dir.path().join("inner");
    let outer = dir.path().canonicalize().unwrap();
    match resolve_safe(&inner, "../escaped.txt") {
        Err(e @ PathError::EscapesRoot { .. }) => {
            let expected = format!(
                "Path escapes project root: {}",
                outer.join("escaped.txt").to_string_lossy()
            );
            assert_eq!(e.message(), expected);
        }
        other => panic!("unexpected {:?}", other),
    }
}

#[test]
fn missing_root_is_reported() {
    let result = resolve_safe(Path::new("/definitely/not/here"), "a.txt");
    match result {
        Err(PathError::RootUnavailable { root, .. }) => assert_eq!(root, "/definitely/not/here"),
        other => panic!("unexpected {:?}", other),
    }
}

#[test]
fn path_ending_in_parent_has_no_file_name() {
    let dir = TempDir::new().unwrap();
    let result = resolve_safe(dir.path(), "missing/..");
    match result {
        Err(PathError::NoFileName { path }) => assert!(path.ends_with("missing/..")),
        other => panic!("unexpected {:?}", other),
    }
}

#[test]
fn join_follows_std() {
    assert_eq!(join_paths("/a", "b"), "/a/b");
    assert_eq!(join_paths("/a/", "b"), "/a/b");
    assert_eq!(join_paths("/a", "/etc/passwd"), "/etc/passwd");
    assert_eq!(join_paths("", "b"), "b");
    assert_eq!(join_paths("/tmp", ""), "/tmp/");
    for (base, p) in [("/a", "b/c"), ("/a/", "../x"), ("a", "b"), ("/", "x"), ("/tmp", "")] {
        assert_eq!(join_paths(base, p), Path::new(base).join(p).to_string_lossy());
    }
}

#[test]
fn starts_with_compares_components() {
    assert!(starts_with("/a/b", "/a"));
    assert!(starts_with("/a/b", "/a/"));
    assert!(!starts_with("/ab", "/a"));
    assert!(starts_with("/a//b/./c", "/a/b"));
    assert!(!starts_with("/etc/passwd", "/tmp"));
    assert!(starts_with("/a/../b", "/a"));
    for (p, b) in [("/a/b", "/a"), ("/ab", "/a"), ("a/b", "a"), ("./a", "."), ("/a", "/a/b")] {
        assert_eq!(starts_with(p, b), Path::new(p).starts_with(b));
    }
}

#[test]
fn parent_and_file_name_follow_std() {
    assert_eq!(path_parent("/tmp/x/../etc/passwd").as_deref(), Some("/tmp/x/../etc"));
    assert_eq!(path_parent("/a").as_deref(), Some("/"));
    assert_eq!(path_parent("a").as_deref(), Some(""));
    assert_eq!(path_parent("/"), None);
    assert_eq!(path_parent(""), None);
    assert_eq!(path_file_name("/tmp/x/passwd").as_deref(), Some("passwd"));
    assert_eq!(path_file_name("/tmp/x/.."), None);
    assert_eq!(path_file_name("/"), None);
    for p in ["/tmp/a/b", "/a", "a/b/", "/a/b/..", "x", "a/./b/c", "x//y", "a/.", "./a", ".", "//a", "/", "", "a/b//", "../a", "/./a/./"] {
        assert_eq!(
            path_parent(p).map(String::from),
            Path::new(p).parent().map(|q| q.to_string_lossy().into_owned())
        );
        assert_eq!(
            path_file_name(p).map(String::from),
            Path::new(p).file_name().map(|q| q.to_string_lossy().into_owned())
        );
    }
}

#[test]
fn refuses_dangling_link_to_outside() {
    let outside = TempDir::new().unwrap();
    let dir = TempDir::new().unwrap();
    block(tokio::fs::symlink(outside.path().join("x"), dir.path().join("link"))).unwrap();
    let e = resolve_safe(dir.path(), "link").unwrap_err();
    assert!(matches!(e, PathError::EscapesRoot { .. }));
    let out = outside.path().canonicalize().unwrap();
    assert_eq!(e.message(), format!("Path escapes project root: {}", out.join("x").to_string_lossy()));
}

#[test]
fn accepts_dangling_link_that_stays_inside() {
    let dir = TempDir::new().unwrap();
    block(tokio::fs::create_dir(dir.path().join("sub"))).unwrap();
    block(tokio::fs::symlink("sub/new.txt", dir.path().join("link"))).unwrap();
    let root = dir.path().canonicalize().unwrap();
    let resolved = resolve_safe(dir.path(), "link").unwrap();
    assert_eq!(resolved, root.join("link").to_string_lossy());
}

#[test]
fn follows_a_chain_of_dangling_links() {
    let outside = TempDir::new().unwrap();
    let dir = TempDir::new().unwrap();
    block(tokio::fs::symlink("b", dir.path().join("a"))).unwrap();
    block(tokio::fs::symlink("c", dir.path().join("b"))).unwrap();
    let root = dir.path().canonicalize().unwrap();
    assert_eq!(resolve_safe(dir.path(), "a").unwrap(), root.join("a").to_string_lossy());
    block(tokio::fs::symlink(outside.path().join("y"), dir.path().join("c"))).unwrap();
    let e = resolve_safe(dir.path(), "a").unwrap_err();
    assert!(matches!(e, PathError::EscapesRoot { .. }));
}

#[test]
fn refuses_a_loop_of_links() {
    let dir = TempDir::new().unwrap();
    block(tokio::fs::symlink("b", dir.path().join("a"))).unwrap();
    block(tokio::fs::symlink("a", dir.path().join("b"))).unwrap();
    let e = resolve_safe(dir.path(), "a").unwrap_err();
    assert!(matches!(e, PathError::TooManyLinks { .. }));
    assert!(e.message().starts_with("Too many levels of symbolic links: "));
}

#[test]
fn link_check_decides_on_its_reply() {
    let state = SafePath::AwaitParent {
        canonical_root: "/r".into(),
        parent: "/r".into(),
        file_name: "n".into(),
    };
    let (state, req) = match resolve_safe_path(state, FsReply::Canonical(Ok("/r".into()))) {
        Resolution::Ask(s, q) => (s, q),
        Resolution::Done(_) => panic!("no link check asked"),
    };
    assert!(matches!(&req, FsRequest::ReadLink(p) if p == "/r/n"));
    let (state, req) = match resolve_safe_path(state, FsReply::Link(Ok(Some("../etc/x".into())))) {
        Resolution::Ask(s, q) => (s, q),
        Resolution::Done(_) => panic!("link not followed"),
    };
    assert!(matches!(&req, FsRequest::Canonicalize(p) if p == "/r/../etc"));
    match resolve_safe_path(state, FsReply::Canonical(Ok("/etc".into()))) {
        Resolution::Done(Err(e)) => assert_eq!(e.message(), "Path escapes project root: /etc/x"),
        _ => panic!("escape not refused"),
    }
    let state = SafePath::AwaitLinkCheck {
        canonical_root: "/r".into(),
        resolved: "/r/n".into(),
        dir: "/r".into(),
        probe: "/r/m".into(),
        hops: 1,
    };
    match resolve_safe_path(state, FsReply::Link(Ok(None))) {
        Resolution::Done(Ok(p)) => assert_eq!(p, "/r/n"),
        _ => panic!("plain new file refused"),
    }
    let state = SafePath::AwaitLinkCheck {
        canonical_root: "/r".into(),
        resolved: "/r/n".into(),
        dir: "/r".into(),
        probe: "/r/n".into(),
        hops: 0,
    };
    match resolve_safe_path(state, FsReply::Link(Err("denied".into()))) {
        Resolution::Done(Err(e)) => assert_eq!(e.message(), "Failed to read link /r/n: denied"),
        _ => panic!("unreadable link accepted"),
    }
}

#[test]
fn resolving_a_resolved_path_gives_it_back() {
    let dir = TempDir::new().unwrap();
    block(tokio::fs::write(dir.path().join("hello.txt"), "")).unwrap();
    let first = resolve_safe(dir.path(), "hello.txt").unwrap();
    let second = resolve_safe(dir.path(), &first).unwrap();
    assert_eq!(first, second);
}

#[test]
fn resolving_a_resolved_new_path_gives_it_back() {
    let dir = TempDir::new().unwrap();
    block(tokio::fs::create_dir(dir.path().join("sub"))).unwrap();
    let first = resolve_safe(dir.path(), "sub/./new.txt").unwrap();
    let second = resolve_safe(dir.path(), &first).unwrap();
    assert_eq!(first, second);
    assert!(Path::new(&first).is_absolute());
}

#[test]
fn parent_message_keeps_the_requested_text() {
    let dir = TempDir::new().unwrap();
    let root = dir.path().canonicalize().unwrap();
    let e = resolve_safe(dir.path(), "missing/./deeper/new.txt").unwrap_err();
    assert!(e.message().starts_with(&format!(
        "Failed to canonicalize parent {}: ",
        root.join("missing/./deeper").to_string_lossy()
    )));
}
