//! Tests of the unified-diff applier against an in-memory tree.

use patched_src::errors::Error;
use patched_src::fstree::FsTree;
use patched_src::patch::apply_patch_file;

struct Fixture {
    fs: FsTree,
}

impl Fixture {
    fn new() -> Self {
        Fixture { fs: FsTree::new() }
    }

    fn write_file(&mut self, name: &str, content: &str) {
        let path = format!("dst/{name}");
        self.fs.write(&path, content);
    }

    fn read_file(&self, name: &str) -> String {
        let path = format!("dst/{name}");
        self.fs.read(&path).expect("file should exist").clone()
    }

    fn file_exists(&self, name: &str) -> bool {
        let path = format!("dst/{name}");
        self.fs.exists_file(&path)
    }

    fn write_patch(&mut self, content: &str) {
        self.fs.write("test.patch", content);
    }

    fn apply(&mut self) -> Result<(), Error> {
        apply_patch_file(&mut self.fs, "test.patch", "dst")
    }
}

#[test]
fn modify_file() {
    let mut f = Fixture::new();

    f.write_file("file.rs", "old\n");
    f.write_patch(
        "\
--- a/file.rs
+++ b/file.rs
@@ -1 +1 @@
-old
+new
",
    );

    f.apply().unwrap();
    assert_eq!(f.read_file("file.rs"), "new\n");
}

#[test]
fn create_file() {
    let mut f = Fixture::new();

    f.write_patch(
        "\
--- /dev/null
+++ b/file.rs
@@ -0,0 +1 @@
+new
",
    );

    f.apply().unwrap();
    assert_eq!(f.read_file("file.rs"), "new\n");
}

#[test]
fn delete_file() {
    let mut f = Fixture::new();

    f.write_file("file.rs", "old\n");
    f.write_patch(
        "\
--- a/file.rs
+++ /dev/null
@@ -1 +0,0 @@
-old
",
    );

    f.apply().unwrap();
    assert!(!f.file_exists("file.rs"));
}

#[test]
fn rename_file() {
    let mut f = Fixture::new();

    f.write_file("from.rs", "content\n");
    f.write_patch(
        "\
--- a/from.rs
+++ b/to.rs
@@ -1 +1 @@
-content
+content
",
    );

    f.apply().unwrap();
    assert!(!f.file_exists("from.rs"));
    assert_eq!(f.read_file("to.rs"), "content\n");
}

#[test]
fn multi_file_patch() {
    let mut f = Fixture::new();

    f.write_file("a.rs", "old1\n");
    f.write_file("b.rs", "old2\n");
    f.write_patch(
        "\
--- a/a.rs
+++ b/a.rs
@@ -1 +1 @@
-old1
+new1
--- a/b.rs
+++ b/b.rs
@@ -1 +1 @@
-old2
+new2
",
    );

    f.apply().unwrap();
    assert_eq!(f.read_file("a.rs"), "new1\n");
    assert_eq!(f.read_file("b.rs"), "new2\n");
}

#[test]
fn creates_parent_directories() {
    let mut f = Fixture::new();

    f.write_patch(
        "\
--- /dev/null
+++ b/a/b/c/file.rs
@@ -0,0 +1 @@
+new
",
    );

    f.apply().unwrap();
    assert_eq!(f.read_file("a/b/c/file.rs"), "new\n");
}

#[test]
fn crlf_normalization() {
    let mut f = Fixture::new();

    f.write_file("file.rs", "old\n");
    f.write_patch("--- a/file.rs\r\n+++ b/file.rs\r\n@@ -1 +1 @@\r\n-old\r\n+new\r\n");

    f.apply().unwrap();
    assert_eq!(f.read_file("file.rs"), "new\n");
}

#[test]
fn empty_patch_is_error() {
    let mut f = Fixture::new();

    f.write_file("file.rs", "unchanged\n");
    f.write_patch("");

    let err = f.apply().unwrap_err();
    assert!(err.message().contains("no valid patches found"));
}

#[test]
fn git_format_patch_with_preamble() {
    let mut f = Fixture::new();

    f.write_file("file.rs", "old\n");
    f.write_patch(
        r#"From 1234567890abcdef1234567890abcdef12345678 Mon Sep 17 00:00:00 2001
From: Author <test@example.com>
Date: Mon, 1 Jan 2026 00:00:00 +0000
Subject: [PATCH] subject line

This is body
---
 file.rs | 2 +-
 1 file changed, 1 insertion(+), 1 deletion(-)

--- a/file.rs
+++ b/file.rs
@@ -1 +1 @@
-old
+new
-- 
2.40.0
"#,
    );

    f.apply().unwrap();
    assert_eq!(f.read_file("file.rs"), "new");
}

#[test]
fn missing_patch_file_is_io_error() {
    let mut f = Fixture::new();

    let err = f.apply().unwrap_err();
    assert!(matches!(err, Error::IoError { .. }));
    assert!(err.message().contains("test.patch"));
}

#[test]
fn zero_hunk_headers_are_an_empty_patch() {
    let mut f = Fixture::new();

    f.write_file("file.rs", "unchanged\n");
    // Two file headers with no hunks at all: nothing to apply, and that is
    // an error rather than a silent success.
    f.write_patch("--- a/file.rs\n+++ b/file.rs\n--- a/other.rs\n+++ b/other.rs\n");

    let err = f.apply().unwrap_err();
    assert!(matches!(err, Error::EmptyPatch { .. }));
    assert_eq!(f.read_file("file.rs"), "unchanged\n");
}

#[test]
fn context_mismatch_is_reported() {
    let mut f = Fixture::new();

    f.write_file("file.rs", "something else\n");
    f.write_patch(
        "\
--- a/file.rs
+++ b/file.rs
@@ -1 +1 @@
-old
+new
",
    );

    let err = f.apply().unwrap_err();
    assert!(matches!(err, Error::HunkMismatch { .. }));
    assert_eq!(f.read_file("file.rs"), "something else\n");
}

#[test]
fn modify_missing_source_is_reported() {
    let mut f = Fixture::new();

    f.write_patch(
        "\
--- a/file.rs
+++ b/file.rs
@@ -1 +1 @@
-old
+new
",
    );

    let err = f.apply().unwrap_err();
    assert!(matches!(err, Error::MissingSource { .. }));
}

#[test]
fn later_patch_sees_earlier_rename() {
    let mut f = Fixture::new();

    f.write_file("from.rs", "content\n");
    // The first file patch renames; the second modifies the renamed file.
    f.write_patch(
        "\
--- a/from.rs
+++ b/to.rs
@@ -1 +1 @@
-content
+content
--- a/to.rs
+++ b/to.rs
@@ -1 +1 @@
-content
+changed
",
    );

    f.apply().unwrap();
    assert!(!f.file_exists("from.rs"));
    assert_eq!(f.read_file("to.rs"), "changed\n");
}

#[test]
fn multi_line_hunk_with_context() {
    let mut f = Fixture::new();

    f.write_file("file.rs", "one\ntwo\nthree\n");
    f.write_patch(
        "\
--- a/file.rs
+++ b/file.rs
@@ -1,3 +1,4 @@
 one
-two
+TWO
+extra
 three
",
    );

    f.apply().unwrap();
    assert_eq!(f.read_file("file.rs"), "one\nTWO\nextra\nthree\n");
}
