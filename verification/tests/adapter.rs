//! End-to-end tests of the patched source adapter.

use patched_src::errors::Error;
use patched_src::fstree::FsTree;
use patched_src::ids::{id_eq, make_patched, SourceId};
use patched_src::patched::{find_git_repo_root, patching_status, MaybePackage, PatchedSource};
use patched_src::registry::{PatchFileInput, PatchRegistry};
use patched_src::source::{
    req_matches, Dependency, GlobalContext, InnerPackage, InnerSource, Poll, QueryKind, VersionReq,
};

const INDEX: &str = "https://github.com/rust-lang/crates.io-index";

fn registry_inner(packages: Vec<InnerPackage>, pending: u64) -> InnerSource {
    InnerSource {
        source_id: SourceId::Registry { url: INDEX.to_string() },
        packages,
        pending,
        quiet: false,
        fingerprint_tag: "reg-fp".to_string(),
        descr: format!("registry `{INDEX}`"),
    }
}

fn bar_pkg() -> InnerPackage {
    InnerPackage {
        name: "bar".to_string(),
        version: "1.0.0".to_string(),
        root: "/registry/src/bar-1.0.0".to_string(),
    }
}

fn hello_patch() -> &'static str {
    "\
--- /dev/null
+++ b/src/lib.rs
@@ -0,0 +1 @@
+pub fn hello() { println!(\"Hello, patched!\") }
"
}

/// Builds a context and disk holding `bar@1.0.0` in a registry checkout and
/// one registered patch-set; returns the context, the disk and the patched
/// identifier.
fn setup(patch_paths_and_texts: &[(&str, &str)]) -> (GlobalContext, FsTree, SourceId) {
    let mut fs = FsTree::new();
    fs.write(
        "/registry/src/bar-1.0.0/Cargo.toml",
        "[package]\nname = \"bar\"\nversion = \"1.0.0\"\n",
    );
    let mut registry = PatchRegistry::new();
    let mut files = Vec::new();
    for (p, text) in patch_paths_and_texts {
        fs.write(p, text);
        files.push(PatchFileInput { path: p.to_string(), content: Some(text.to_string()) });
    }
    let cksum = registry.register(&files).unwrap();
    let inner_id = SourceId::Registry { url: INDEX.to_string() };
    let patched_id = make_patched(&inner_id, &cksum).unwrap();
    let gctx = GlobalContext {
        cwd: "/ws".to_string(),
        cache_home: "/home".to_string(),
        cache_locked: true,
        registry,
        sources: vec![registry_inner(vec![bar_pkg()], 0)],
    };
    (gctx, fs, patched_id)
}

fn bar_dep(patched_id: &SourceId) -> Dependency {
    Dependency {
        name: "bar".to_string(),
        req: VersionReq::Exact { version: "1.0.0".to_string() },
        source_id: patched_id.clone_id(),
    }
}

#[test]
fn basic_registry_patch() {
    let (gctx, mut fs, patched_id) = setup(&[("/ws/patches/hello.patch", hello_patch())]);
    let mut src = PatchedSource::new(patched_id.clone_id(), &gctx).unwrap();
    let dep = bar_dep(&patched_id);
    let sums = match src.query(&dep, QueryKind::Exact, &mut fs, &gctx) {
        Poll::Ready(Ok(sums)) => sums,
        Poll::Ready(Err(e)) => panic!("query failed: {}", e.message()),
        Poll::Pending => panic!("query was pending"),
    };
    assert_eq!(sums.len(), 1);
    assert_eq!(sums[0].pkg_id.name, "bar");
    assert_eq!(sums[0].pkg_id.version, "1.0.0");
    assert!(id_eq(&sums[0].pkg_id.source_id, &patched_id));

    // The lock file records the patched identity by its full URL form.
    let lock_url = sums[0].pkg_id.source_id.to_url();
    assert!(lock_url.starts_with(&format!("patched+registry+{INDEX}?patch-cksum=")));
    assert_eq!(lock_url.len(), "patched+registry+".len() + INDEX.len() + "?patch-cksum=".len() + 64);

    // The materialized entry holds the created file and the marker.
    let dst = src.patched_src_dir(&sums[0].pkg_id, &gctx);
    assert!(fs.exists_file(&format!("{dst}/.cargo-ok")));
    assert_eq!(
        fs.read(&format!("{dst}/src/lib.rs")).unwrap(),
        "pub fn hello() { println!(\"Hello, patched!\") }\n"
    );

    // The package can be downloaded again from the adapter.
    let inner_keyed = sums[0].pkg_id.with_source_id(SourceId::Registry { url: INDEX.to_string() });
    let MaybePackage::Ready(pkg) = src.download(&inner_keyed).unwrap();
    assert_eq!(pkg.pkg_id.name, "bar");
    assert!(id_eq(&pkg.pkg_id.source_id, &patched_id));
}

#[test]
fn two_patches_in_order_and_reversed() {
    let p1 = "--- /dev/null\n+++ b/src/hello.rs\n@@ -0,0 +1 @@\n+pub fn hello() {}\n";
    let p2 = "--- /dev/null\n+++ b/src/hola.rs\n@@ -0,0 +1 @@\n+pub fn hola() {}\n";

    let (gctx, mut fs, patched_id) =
        setup(&[("/ws/patches/hello.patch", p1), ("/ws/patches/hola.patch", p2)]);
    let mut src = PatchedSource::new(patched_id.clone_id(), &gctx).unwrap();
    let dep = bar_dep(&patched_id);
    let sums = match src.query(&dep, QueryKind::Exact, &mut fs, &gctx) {
        Poll::Ready(Ok(sums)) => sums,
        _ => panic!("query did not succeed"),
    };
    let dst = src.patched_src_dir(&sums[0].pkg_id, &gctx);
    assert_eq!(fs.read(&format!("{dst}/src/hello.rs")).unwrap(), "pub fn hello() {}\n");
    assert_eq!(fs.read(&format!("{dst}/src/hola.rs")).unwrap(), "pub fn hola() {}\n");

    // The reversed order also succeeds, but identifies a different patch-set.
    let (gctx2, mut fs2, patched_id2) =
        setup(&[("/ws/patches/hola.patch", p2), ("/ws/patches/hello.patch", p1)]);
    assert!(!id_eq(&patched_id, &patched_id2));
    let mut src2 = PatchedSource::new(patched_id2.clone_id(), &gctx2).unwrap();
    let dep2 = bar_dep(&patched_id2);
    let sums2 = match src2.query(&dep2, QueryKind::Exact, &mut fs2, &gctx2) {
        Poll::Ready(Ok(sums)) => sums,
        _ => panic!("query did not succeed"),
    };
    let dst2 = src2.patched_src_dir(&sums2[0].pkg_id, &gctx2);
    assert_ne!(dst, dst2);
    assert_eq!(fs2.read(&format!("{dst2}/src/hello.rs")).unwrap(), "pub fn hello() {}\n");
    assert_eq!(fs2.read(&format!("{dst2}/src/hola.rs")).unwrap(), "pub fn hola() {}\n");
}

#[test]
fn patch_changing_version_no_longer_satisfies_requirement() {
    let version_patch = "\
--- a/Cargo.toml
+++ b/Cargo.toml
@@ -1,3 +1,3 @@
 [package]
 name = \"bar\"
-version = \"1.0.0\"
+version = \"2.0.0\"
";
    let (gctx, mut fs, patched_id) = setup(&[("/ws/patches/bump.patch", version_patch)]);
    let mut src = PatchedSource::new(patched_id.clone_id(), &gctx).unwrap();
    let dep = bar_dep(&patched_id);
    let sums = match src.query(&dep, QueryKind::Exact, &mut fs, &gctx) {
        Poll::Ready(Ok(sums)) => sums,
        _ => panic!("query did not succeed"),
    };
    // The patched summary advertises the rewritten version, which no longer
    // satisfies the original exact requirement; resolution then reports the
    // patch as unused and the dependency as unmatched.
    assert_eq!(sums[0].pkg_id.version, "2.0.0");
    assert!(!req_matches(&dep.req, &sums[0].pkg_id.version));
}

#[test]
fn pending_inner_source_is_propagated() {
    let (mut gctx, mut fs, patched_id) = setup(&[("/ws/patches/hello.patch", hello_patch())]);
    gctx.sources = vec![registry_inner(vec![bar_pkg()], 1)];
    let mut src = PatchedSource::new(patched_id.clone_id(), &gctx).unwrap();
    let dep = bar_dep(&patched_id);
    assert!(matches!(src.query(&dep, QueryKind::Exact, &mut fs, &gctx), Poll::Pending));
    src.block_until_ready().unwrap();
    assert!(matches!(
        src.query(&dep, QueryKind::Exact, &mut fs, &gctx),
        Poll::Ready(Ok(_))
    ));
}

#[test]
fn ambiguous_patch_target_is_an_error() {
    // Zero candidates.
    let (gctx, mut fs, patched_id) = setup(&[("/ws/patches/hello.patch", hello_patch())]);
    let mut src = PatchedSource::new(patched_id.clone_id(), &gctx).unwrap();
    let missing = Dependency {
        name: "baz".to_string(),
        req: VersionReq::Any,
        source_id: patched_id.clone_id(),
    };
    match src.query(&missing, QueryKind::Exact, &mut fs, &gctx) {
        Poll::Ready(Err(Error::AmbiguousPatchTarget { found })) => assert_eq!(found, 0),
        _ => panic!("expected an ambiguous-target error"),
    }

    // Two candidates.
    let (mut gctx2, mut fs2, patched_id2) = setup(&[("/ws/patches/hello.patch", hello_patch())]);
    let mut two = registry_inner(vec![bar_pkg(), bar_pkg()], 0);
    two.packages[1].version = "1.2.0".to_string();
    gctx2.sources = vec![two];
    let mut src2 = PatchedSource::new(patched_id2.clone_id(), &gctx2).unwrap();
    let loose = Dependency {
        name: "bar".to_string(),
        req: VersionReq::Any,
        source_id: patched_id2.clone_id(),
    };
    match src2.query(&loose, QueryKind::Exact, &mut fs2, &gctx2) {
        Poll::Ready(Err(e)) => {
            assert!(matches!(e, Error::AmbiguousPatchTarget { found: 2 }));
            assert_eq!(
                e.message(),
                "expected exactly one package for patched dependency, found 2"
            );
        },
        _ => panic!("expected an ambiguous-target error"),
    }
}

#[test]
fn unregistered_patch_set_is_rejected() {
    let (mut gctx, _fs, _patched_id) = setup(&[("/ws/patches/hello.patch", hello_patch())]);
    gctx.registry = PatchRegistry::new();
    let inner = SourceId::Registry { url: INDEX.to_string() };
    let cksum = "abcdefabcdefabcdefabcdefabcdefabcdefabcdefabcdefabcdefabcdefabcd";
    let id = make_patched(&inner, cksum).unwrap();
    let err = match PatchedSource::new(id, &gctx) {
        Err(e) => e,
        Ok(_) => panic!("expected an unregistered-patch-set error"),
    };
    assert!(matches!(err, Error::UnregisteredPatchSet { .. }));
    assert_eq!(err.message(), "no patch files registered for checksum `abcdefab`");
}

#[test]
fn fingerprint_extends_inner_with_full_checksum() {
    let (gctx, mut fs, patched_id) = setup(&[("/ws/patches/hello.patch", hello_patch())]);
    let mut src = PatchedSource::new(patched_id.clone_id(), &gctx).unwrap();
    let dep = bar_dep(&patched_id);
    let sums = match src.query(&dep, QueryKind::Exact, &mut fs, &gctx) {
        Poll::Ready(Ok(sums)) => sums,
        _ => panic!("query did not succeed"),
    };
    let inner_keyed = sums[0].pkg_id.with_source_id(SourceId::Registry { url: INDEX.to_string() });
    let MaybePackage::Ready(pkg) = src.download(&inner_keyed).unwrap();
    let fp = src.fingerprint(&pkg).unwrap();
    let cksum = src.patch_checksum().clone();
    assert_eq!(fp, format!("reg-fp/{cksum}"));
}

#[test]
fn describe_counts_patch_files() {
    let (gctx, _fs, patched_id) = setup(&[("/ws/patches/hello.patch", hello_patch())]);
    let src = PatchedSource::new(patched_id, &gctx).unwrap();
    assert_eq!(src.describe(), format!("registry `{INDEX}` with 1 patch file"));

    let p2 = "--- /dev/null\n+++ b/src/hola.rs\n@@ -0,0 +1 @@\n+pub fn hola() {}\n";
    let (gctx2, _fs2, patched_id2) =
        setup(&[("/ws/patches/hello.patch", hello_patch()), ("/ws/patches/hola.patch", p2)]);
    let src2 = PatchedSource::new(patched_id2, &gctx2).unwrap();
    assert_eq!(src2.describe(), format!("registry `{INDEX}` with 2 patch files"));
}

#[test]
fn source_flags_and_status_line() {
    let (gctx, _fs, patched_id) = setup(&[("/ws/patches/hello.patch", hello_patch())]);
    let mut src = PatchedSource::new(patched_id.clone_id(), &gctx).unwrap();
    assert!(!src.supports_checksums());
    assert!(!src.requires_precise());
    assert!(id_eq(&src.source_id(), &patched_id));
    let probe = bar_pkg();
    let pkg_id = patched_src::source::PackageId {
        name: probe.name,
        version: probe.version,
        source_id: patched_id,
    };
    match src.is_yanked(&pkg_id) {
        Poll::Ready(Ok(b)) => assert!(!b),
        _ => panic!("is_yanked should answer at once"),
    }
    assert_eq!(patching_status(&pkg_id), "Patching bar v1.0.0");
}

#[test]
fn git_source_copies_whole_repository() {
    let mut fs = FsTree::new();
    // A git checkout: the repository root holds the workspace manifest and
    // the package lives in a subdirectory.
    fs.write("/git/checkouts/repo/.git/HEAD", "ref: refs/heads/main\n");
    fs.write("/git/checkouts/repo/Cargo.toml", "[workspace]\nmembers = [\"bar\"]\n");
    fs.write(
        "/git/checkouts/repo/bar/Cargo.toml",
        "[package]\nname = \"bar\"\nversion = \"1.0.0\"\n",
    );
    fs.write("/ws/patches/hello.patch", "\
--- /dev/null
+++ b/bar/src/lib.rs
@@ -0,0 +1 @@
+pub fn hello() {}
");

    assert_eq!(
        find_git_repo_root(&fs, "/git/checkouts/repo/bar").unwrap(),
        "/git/checkouts/repo"
    );

    let mut registry = PatchRegistry::new();
    let files = vec![PatchFileInput {
        path: "/ws/patches/hello.patch".to_string(),
        content: fs.read("/ws/patches/hello.patch").cloned(),
    }];
    let cksum = registry.register(&files).unwrap();
    let git_id = SourceId::Git {
        url: "https://example.com/repo.git".to_string(),
        precise: Some("0f1e2d3c".to_string()),
    };
    let patched_id = make_patched(&git_id, &cksum).unwrap();
    let gctx = GlobalContext {
        cwd: "/ws".to_string(),
        cache_home: "/home".to_string(),
        cache_locked: true,
        registry,
        sources: vec![InnerSource {
            source_id: git_id,
            packages: vec![InnerPackage {
                name: "bar".to_string(),
                version: "1.0.0".to_string(),
                root: "/git/checkouts/repo/bar".to_string(),
            }],
            pending: 0,
            quiet: false,
            fingerprint_tag: "git-fp".to_string(),
            descr: "https://example.com/repo.git".to_string(),
        }],
    };
    let mut src = PatchedSource::new(patched_id.clone_id(), &gctx).unwrap();
    let dep = Dependency {
        name: "bar".to_string(),
        req: VersionReq::Exact { version: "1.0.0".to_string() },
        source_id: patched_id,
    };
    let sums = match src.query(&dep, QueryKind::Exact, &mut fs, &gctx) {
        Poll::Ready(Ok(sums)) => sums,
        Poll::Ready(Err(e)) => panic!("query failed: {}", e.message()),
        Poll::Pending => panic!("query was pending"),
    };
    assert_eq!(sums[0].pkg_id.name, "bar");
    // The whole repository was copied: the workspace manifest is in the
    // per-repository entry beside the patched package.
    let dst = src.patched_src_dir(&sums[0].pkg_id, &gctx);
    assert!(dst.contains("-0f1e2d3c-"));
    assert!(fs.exists_file(&format!("{dst}/Cargo.toml")));
    assert_eq!(fs.read(&format!("{dst}/bar/src/lib.rs")).unwrap(), "pub fn hello() {}\n");
    assert!(fs.exists_file(&format!("{dst}/.cargo-ok")));
}

#[test]
fn failed_patch_through_query_leaves_no_marker() {
    // The patch does not apply to the downloaded package, so the query
    // fails and the half-built cache entry carries no completion marker.
    let bad = "--- a/absent.rs\n+++ b/absent.rs\n@@ -1 +1 @@\n-x\n+y\n";
    let (gctx, mut fs, patched_id) = setup(&[("/ws/patches/bad.patch", bad)]);
    let mut src = PatchedSource::new(patched_id.clone_id(), &gctx).unwrap();
    let dep = bar_dep(&patched_id);
    match src.query(&dep, QueryKind::Exact, &mut fs, &gctx) {
        Poll::Ready(Err(e)) => assert!(matches!(e, Error::MissingSource { .. })),
        _ => panic!("the failing patch should fail the query"),
    }
    let pkg_id = patched_src::source::PackageId {
        name: "bar".to_string(),
        version: "1.0.0".to_string(),
        source_id: patched_id,
    };
    let dst = src.patched_src_dir(&pkg_id, &gctx);
    assert!(!fs.exists_file(&format!("{dst}/.cargo-ok")));
    // The copy itself happened, so the next attempt starts from a
    // markerless entry and rebuilds it.
    assert!(fs.exists_file(&format!("{dst}/Cargo.toml")));
}
