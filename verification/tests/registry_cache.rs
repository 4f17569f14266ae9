//! Tests of the patch registry and the content-addressed cache.

use patched_src::cache::{ensure_ready, path_for};
use patched_src::errors::Error;
use patched_src::fstree::FsTree;
use patched_src::ids::SourceId;
use patched_src::registry::{PatchFileInput, PatchRegistry};

fn input(path: &str, content: &str) -> PatchFileInput {
    PatchFileInput { path: path.to_string(), content: Some(content.to_string()) }
}

#[test]
fn register_and_lookup() {
    let mut reg = PatchRegistry::new();
    let files = vec![input("/ws/patches/a.patch", "alpha"), input("/ws/patches/b.patch", "beta")];
    let cksum = reg.register(&files).unwrap();
    assert_eq!(cksum.len(), 64);
    assert!(cksum.chars().all(|c| c.is_ascii_hexdigit()));
    // The checksum is a digest, not the input handed back.
    assert_ne!(cksum, "alphabeta");
    let paths = reg.lookup(&cksum).unwrap();
    assert_eq!(paths, vec!["/ws/patches/a.patch".to_string(), "/ws/patches/b.patch".to_string()]);
    assert!(reg.lookup("0000000000000000000000000000000000000000000000000000000000000000").is_none());
}

#[test]
fn same_contents_same_checksum() {
    // The checksum depends on the ordered contents alone: other paths and
    // another registry give the same digest.
    let mut reg1 = PatchRegistry::new();
    let mut reg2 = PatchRegistry::new();
    let c1 = reg1
        .register(&vec![input("/a/x.patch", "one"), input("/a/y.patch", "two")])
        .unwrap();
    let c2 = reg2
        .register(&vec![input("/elsewhere/p.patch", "one"), input("/other/q.patch", "two")])
        .unwrap();
    assert_eq!(c1, c2);
}

#[test]
fn order_changes_the_checksum() {
    let mut reg = PatchRegistry::new();
    let c1 = reg.register(&vec![input("/a", "one"), input("/b", "two")]).unwrap();
    let c2 = reg.register(&vec![input("/b", "two"), input("/a", "one")]).unwrap();
    assert_ne!(c1, c2);
}

#[test]
fn unreadable_patch_file_fails_registration() {
    let mut reg = PatchRegistry::new();
    let files = vec![
        input("/ws/patches/ok.patch", "fine"),
        PatchFileInput { path: "/ws/patches/gone.patch".to_string(), content: None },
    ];
    let err = reg.register(&files).unwrap_err();
    match &err {
        Error::IoError { path } => assert_eq!(path, "/ws/patches/gone.patch"),
        other => panic!("unexpected error: {}", other.message()),
    }
}

fn create_patch() -> &'static str {
    "\
--- /dev/null
+++ b/src/lib.rs
@@ -0,0 +1 @@
+pub fn hello() {}
"
}

fn setup_tree() -> FsTree {
    let mut fs = FsTree::new();
    fs.write("/registry/src/bar-1.0.0/Cargo.toml", "[package]\nname = \"bar\"\nversion = \"1.0.0\"\n");
    fs.write("/ws/patches/hello.patch", create_patch());
    fs
}

#[test]
fn ensure_ready_builds_and_marks() {
    let mut fs = setup_tree();
    let patches = vec!["/ws/patches/hello.patch".to_string()];
    ensure_ready(&mut fs, "/home/patched-src/entry", "/registry/src/bar-1.0.0", &patches).unwrap();
    // The completion marker exists and the destination holds the patched tree.
    assert!(fs.exists_file("/home/patched-src/entry/.cargo-ok"));
    assert_eq!(
        fs.read("/home/patched-src/entry/src/lib.rs").unwrap(),
        "pub fn hello() {}\n"
    );
    assert_eq!(
        fs.read("/home/patched-src/entry/Cargo.toml").unwrap(),
        "[package]\nname = \"bar\"\nversion = \"1.0.0\"\n"
    );
}

#[test]
fn marker_short_circuits_a_second_call() {
    let mut fs = setup_tree();
    let patches = vec!["/ws/patches/hello.patch".to_string()];
    ensure_ready(&mut fs, "/home/patched-src/entry", "/registry/src/bar-1.0.0", &patches).unwrap();
    // Even with the patch file gone, the marked entry is served untouched:
    // the second call performs no writes at all.
    fs.remove_file("/ws/patches/hello.patch");
    let before: Vec<(String, String)> = ["/home/patched-src/entry/.cargo-ok",
        "/home/patched-src/entry/src/lib.rs", "/home/patched-src/entry/Cargo.toml"]
        .iter()
        .map(|p| (p.to_string(), fs.read(p).map(|s| s.clone()).unwrap_or_default()))
        .collect();
    ensure_ready(&mut fs, "/home/patched-src/entry", "/registry/src/bar-1.0.0", &patches).unwrap();
    for (p, v) in before {
        assert_eq!(fs.read(&p).map(|s| s.clone()).unwrap_or_default(), v);
    }
}

#[test]
fn missing_marker_discards_and_rebuilds() {
    let mut fs = setup_tree();
    let patches = vec!["/ws/patches/hello.patch".to_string()];
    ensure_ready(&mut fs, "/home/patched-src/entry", "/registry/src/bar-1.0.0", &patches).unwrap();
    // Simulate a crash after a partial build: the marker is gone and a stale
    // file sits in the entry.
    fs.remove_file("/home/patched-src/entry/.cargo-ok");
    fs.write("/home/patched-src/entry/stale.txt", "junk");
    ensure_ready(&mut fs, "/home/patched-src/entry", "/registry/src/bar-1.0.0", &patches).unwrap();
    assert!(fs.exists_file("/home/patched-src/entry/.cargo-ok"));
    assert!(!fs.exists_file("/home/patched-src/entry/stale.txt"));
    assert_eq!(
        fs.read("/home/patched-src/entry/src/lib.rs").unwrap(),
        "pub fn hello() {}\n"
    );
}

#[test]
fn failed_patch_leaves_no_marker() {
    let mut fs = setup_tree();
    fs.write("/ws/patches/bad.patch", "--- a/absent.rs\n+++ b/absent.rs\n@@ -1 +1 @@\n-x\n+y\n");
    let patches = vec!["/ws/patches/bad.patch".to_string()];
    let err = ensure_ready(&mut fs, "/home/patched-src/entry", "/registry/src/bar-1.0.0", &patches)
        .unwrap_err();
    assert!(matches!(err, Error::MissingSource { .. }));
    assert!(!fs.exists_file("/home/patched-src/entry/.cargo-ok"));
}

#[test]
fn cache_layouts_differ_for_registry_and_git() {
    let cksum = "0123456789abcdef0123456789abcdef0123456789abcdef0123456789abcdef";
    let reg = SourceId::Registry { url: "https://github.com/rust-lang/crates.io-index".to_string() };
    let reg_path = path_for("/home", &reg, "bar", "1.0.0", cksum);
    let hash = reg.short_hash();
    assert_eq!(
        reg_path,
        format!("/home/patched-src/github.com-{hash}/bar-1.0.0/01234567")
    );

    let git = SourceId::Git {
        url: "https://example.com/repo.git".to_string(),
        precise: Some("0f1e2d3c".to_string()),
    };
    let git_hash = git.short_hash();
    let git_path = path_for("/home", &git, "bar", "1.0.0", cksum);
    assert_eq!(
        git_path,
        format!("/home/patched-src/example.com-{git_hash}-0f1e2d3c-01234567")
    );

    let headless = SourceId::Git { url: "https://example.com/repo.git".to_string(), precise: None };
    let h2 = headless.short_hash();
    assert_eq!(
        path_for("/home", &headless, "bar", "1.0.0", cksum),
        format!("/home/patched-src/example.com-{h2}-HEAD-01234567")
    );
}
