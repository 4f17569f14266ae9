//! Tests of the manifest surface: field reading, patch-table validation,
//! sibling patch-set agreement, and the URL helpers.

use patched_src::errors::Error;
use patched_src::fstree::FsTree;
use patched_src::ids::SourceId;
use patched_src::manifest::{
    check_sibling_patch_sets, dependency_inherit_with, for_patches,
    inner_dependency_inherit_with, patched_source_id, read_manifest,
    resolve_source_id_from_dependency, unused_dep_keys, ConfigRelativePath, DepSpecError,
    prepare_for_publish, InheritError, InheritableFields, ModelManifest, PublishManifest,
    ResolveToPath, SiblingPatch, TomlDependency, TomlDetailedDependency,
    TomlInheritedDependency,
};
use patched_src::registry::{PatchFileInput, PatchRegistry};
use patched_src::source::GlobalContext;
use patched_src::urlx::UrlExt;

fn dep() -> TomlDetailedDependency {
    TomlDetailedDependency::empty()
}

fn gctx() -> GlobalContext {
    GlobalContext {
        cwd: "/ws".to_string(),
        cache_home: "/home".to_string(),
        cache_locked: false,
        registry: PatchRegistry::new(),
        sources: Vec::new(),
    }
}

const INDEX: &str = "https://github.com/rust-lang/crates.io-index";

#[test]
fn read_manifest_surfaces_name_and_version() {
    let mut fs = FsTree::new();
    fs.write(
        "/pkg/Cargo.toml",
        "[package]\nname = \"bar\"\nversion = \"1.0.0\"\nedition = \"2021\"\n",
    );
    let m: ModelManifest = read_manifest(&fs, "/pkg/Cargo.toml").unwrap();
    assert_eq!(m.name, "bar");
    assert_eq!(m.version, "1.0.0");

    assert!(matches!(
        read_manifest(&fs, "/absent/Cargo.toml"),
        Err(Error::IoError { .. })
    ));

    fs.write("/broken/Cargo.toml", "[package]\nname = \"bar\"\n");
    assert!(matches!(
        read_manifest(&fs, "/broken/Cargo.toml"),
        Err(Error::ManifestParse { .. })
    ));
}

#[test]
fn patched_entry_validation_error_kinds() {
    let registry_source = SourceId::Registry { url: INDEX.to_string() };

    // No `patches` key: not a patched dependency at all.
    let plain = dep();
    assert!(patched_source_id(&plain, "bar", &registry_source, INDEX, "/ws").unwrap().is_none());

    // An empty patch list.
    let mut empty = dep();
    empty.version = Some("1.0.0".to_string());
    empty.patches = Some(Vec::new());
    assert!(matches!(
        patched_source_id(&empty, "bar", &registry_source, INDEX, "/ws"),
        Err(Error::EmptyPatchList)
    ));

    // Patching a path dependency.
    let mut path_dep = dep();
    path_dep.version = Some("1.0.0".to_string());
    path_dep.patches = Some(vec!["patches/a.patch".to_string()]);
    let path_source = SourceId::Path { url: "/ws/dep".to_string() };
    assert!(matches!(
        patched_source_id(&path_dep, "bar", &path_source, INDEX, "/ws"),
        Err(Error::PatchPathDep)
    ));

    // No version at all.
    let mut loose = dep();
    loose.patches = Some(vec!["patches/a.patch".to_string()]);
    assert!(matches!(
        patched_source_id(&loose, "bar", &registry_source, INDEX, "/ws"),
        Err(Error::NonExactVersion)
    ));

    // A range does not pin one exact version.
    let mut caret = dep();
    caret.version = Some("^1".to_string());
    caret.patches = Some(vec!["patches/a.patch".to_string()]);
    assert!(matches!(
        patched_source_id(&caret, "bar", &registry_source, INDEX, "/ws"),
        Err(Error::NonExactVersion)
    ));
    let mut major_only = dep();
    major_only.version = Some("1".to_string());
    major_only.patches = Some(vec!["patches/a.patch".to_string()]);
    assert!(matches!(
        patched_source_id(&major_only, "bar", &registry_source, INDEX, "/ws"),
        Err(Error::NonExactVersion)
    ));

    // A full triple pins exactly one version and is accepted.
    let mut plain = dep();
    plain.version = Some("1.0.0".to_string());
    plain.patches = Some(vec!["patches/a.patch".to_string()]);
    let plain_info = patched_source_id(&plain, "bar", &registry_source, INDEX, "/ws")
        .unwrap()
        .unwrap();
    assert_eq!(plain_info.version, "1.0.0");
    let mut spaced = dep();
    spaced.version = Some("= 1.2.3".to_string());
    spaced.patches = Some(vec!["patches/a.patch".to_string()]);
    let spaced_info = patched_source_id(&spaced, "bar", &registry_source, INDEX, "/ws")
        .unwrap()
        .unwrap();
    assert_eq!(spaced_info.version, "1.2.3");

    // A registry that disagrees with the patch-table key.
    let mut elsewhere = dep();
    elsewhere.version = Some("1.0.0".to_string());
    elsewhere.patches = Some(vec!["patches/a.patch".to_string()]);
    let other_source = SourceId::Registry { url: "https://example.com/other-index".to_string() };
    assert!(matches!(
        patched_source_id(&elsewhere, "bar", &other_source, INDEX, "/ws"),
        Err(Error::MismatchedSource)
    ));

    // A git source naming the same repository is accepted.
    let mut git_dep = dep();
    git_dep.version = Some("=1.0.0".to_string());
    git_dep.patches = Some(vec!["patches/a.patch".to_string(), "patches/b.patch".to_string()]);
    let git_source = SourceId::Git { url: "https://example.com/repo.git".to_string(), precise: None };
    let info = patched_source_id(&git_dep, "bar", &git_source, "https://example.com/repo.git", "/ws")
        .unwrap()
        .unwrap();
    assert_eq!(info.name, "bar");
    assert_eq!(info.version, "1.0.0");
    assert_eq!(info.paths, vec!["/ws/patches/a.patch".to_string(), "/ws/patches/b.patch".to_string()]);
}

#[test]
fn for_patches_registers_and_wraps() {
    let mut registry = PatchRegistry::new();
    let inner = SourceId::Registry { url: INDEX.to_string() };
    let files = vec![PatchFileInput {
        path: "/ws/patches/a.patch".to_string(),
        content: Some("content".to_string()),
    }];
    let id = for_patches(&inner, &mut registry, &files).unwrap();
    let cksum = id.patch_cksum().unwrap().clone();
    assert_eq!(registry.lookup(&cksum).unwrap(), vec!["/ws/patches/a.patch".to_string()]);
    assert_eq!(id.to_url(), format!("patched+registry+{INDEX}?patch-cksum={cksum}"));

    // A missing file fails the registration and nothing is recorded.
    let mut registry2 = PatchRegistry::new();
    let bad = vec![PatchFileInput { path: "/ws/patches/gone.patch".to_string(), content: None }];
    assert!(matches!(
        for_patches(&inner, &mut registry2, &bad),
        Err(Error::IoError { .. })
    ));
}

#[test]
fn sibling_git_packages_with_divergent_patch_sets() {
    let repo = "https://example.com/repo.git";
    let entries = vec![
        SiblingPatch {
            pkg: "bar".to_string(),
            repo_url: repo.to_string(),
            cksum: "aa".repeat(32),
            paths: vec!["/ws/patches/bar.patch".to_string()],
        },
        SiblingPatch {
            pkg: "baz".to_string(),
            repo_url: repo.to_string(),
            cksum: "bb".repeat(32),
            paths: vec!["/ws/patches/baz.patch".to_string()],
        },
    ];
    let err = check_sibling_patch_sets(&entries).unwrap_err();
    match &err {
        Error::ConflictingPatchSets { first_pkg, second_pkg, first_paths, second_paths } => {
            assert_eq!(first_pkg, "bar");
            assert_eq!(second_pkg, "baz");
            assert_eq!(first_paths, &vec!["/ws/patches/bar.patch".to_string()]);
            assert_eq!(second_paths, &vec!["/ws/patches/baz.patch".to_string()]);
        },
        other => panic!("unexpected error: {}", other.message()),
    }
    assert!(err.message().contains("bar"));
    assert!(err.message().contains("baz"));

    // Identical patch-sets across siblings are fine.
    let agreeing = vec![
        SiblingPatch {
            pkg: "bar".to_string(),
            repo_url: repo.to_string(),
            cksum: "aa".repeat(32),
            paths: vec!["/ws/patches/shared.patch".to_string()],
        },
        SiblingPatch {
            pkg: "baz".to_string(),
            repo_url: repo.to_string(),
            cksum: "aa".repeat(32),
            paths: vec!["/ws/patches/shared.patch".to_string()],
        },
    ];
    assert!(check_sibling_patch_sets(&agreeing).is_ok());
}

#[test]
fn dependency_source_resolution() {
    let default_source = SourceId::Registry { url: INDEX.to_string() };

    let mut git_dep = dep();
    git_dep.git = Some("https://example.com/repo.git".to_string());
    git_dep.rev = Some("0f1e2d3c".to_string());
    let id = resolve_source_id_from_dependency(&git_dep, "/ws", &default_source).unwrap();
    assert_eq!(id.to_url(), "git+https://example.com/repo.git#0f1e2d3c");

    let mut both = dep();
    both.git = Some("https://example.com/repo.git".to_string());
    both.registry = Some(INDEX.to_string());
    assert!(matches!(
        resolve_source_id_from_dependency(&both, "/ws", &default_source),
        Err(DepSpecError::GitWithRegistry)
    ));

    let mut two_refs = dep();
    two_refs.git = Some("https://example.com/repo.git".to_string());
    two_refs.branch = Some("main".to_string());
    two_refs.tag = Some("v1".to_string());
    assert!(matches!(
        resolve_source_id_from_dependency(&two_refs, "/ws", &default_source),
        Err(DepSpecError::TwoGitReferences)
    ));

    let mut path_dep = dep();
    path_dep.path = Some("dep".to_string());
    let id2 = resolve_source_id_from_dependency(&path_dep, "/ws", &default_source).unwrap();
    assert_eq!(id2.to_url(), "path+/ws/dep");

    let plain = dep();
    let id3 = resolve_source_id_from_dependency(&plain, "/ws", &default_source).unwrap();
    assert_eq!(id3.to_url(), format!("registry+{INDEX}"));
}

#[test]
fn inheritable_fields_and_resolve_to_path() {
    let ws_dep = TomlDependency::Simple { version: "1.0.0".to_string() };
    let fields = InheritableFields {
        dependencies: vec![("serde-like".to_string(), ws_dep)],
        lints: Some(vec!["unused".to_string()]),
        license_file: Some("LICENSE".to_string()),
        readme: Some("README.md".to_string()),
        ws_root: "/ws".to_string(),
    };
    assert!(fields.get_dependency("serde-like").is_some());
    assert!(fields.get_dependency("absent").is_none());
    assert_eq!(fields.lints().unwrap(), &vec!["unused".to_string()]);
    assert_eq!(fields.license_file("/ws/member").unwrap(), "/ws/LICENSE");
    assert_eq!(fields.readme("/ws/member").unwrap(), "/ws/README.md");
    assert_eq!(fields.ws_root(), "/ws");

    let g = gctx();
    assert_eq!("plain".to_string().resolve(&g), "plain");
    let rel = ConfigRelativePath { raw: "patches/a.patch".to_string() };
    assert_eq!(rel.resolve(&g), "/ws/patches/a.patch");
}

#[test]
fn unused_keys_become_warnings() {
    let mut warnings: Vec<String> = Vec::new();
    unused_dep_keys(
        "bar",
        "patch.crates-io",
        &vec!["wrench".to_string(), "sprocket".to_string()],
        &mut warnings,
    );
    assert_eq!(
        warnings,
        vec![
            "unused manifest key: patch.crates-io.bar.wrench".to_string(),
            "unused manifest key: patch.crates-io.bar.sprocket".to_string(),
        ]
    );
}

#[test]
fn remove_query_params_from_url_text() {
    let mut url = format!("{INDEX}?patch-cksum=deadbeef&auth=token");
    url.remove_query_params(&vec!["patch-cksum".to_string()]);
    assert_eq!(url, format!("{INDEX}?auth=token"));

    let mut only = format!("{INDEX}?patch-cksum=deadbeef");
    only.remove_query_params(&vec!["patch-cksum".to_string()]);
    assert_eq!(only, INDEX);

    let mut none = INDEX.to_string();
    none.remove_query_params(&vec!["patch-cksum".to_string()]);
    assert_eq!(none, INDEX);

    // A fragment is not part of the query and survives the removal, even
    // when the last parameter goes.
    let mut frag = format!("{INDEX}?patch-cksum=deadbeef#frag");
    frag.remove_query_params(&vec!["patch-cksum".to_string()]);
    assert_eq!(frag, format!("{INDEX}#frag"));
    let mut frag_only = format!("{INDEX}#frag?not-a-query");
    frag_only.remove_query_params(&vec!["patch-cksum".to_string()]);
    assert_eq!(frag_only, format!("{INDEX}#frag?not-a-query"));
}

#[test]
fn workspace_dependency_inheritance_merges_keys() {
    let member = TomlInheritedDependency {
        features: Some(vec!["extra".to_string()]),
        optional: Some(true),
        default_features: None,
        public: None,
    };

    // A bare workspace version picks up the member's keys.
    let mut warnings: Vec<String> = Vec::new();
    let ws = TomlDependency::Simple { version: "1.2.3".to_string() };
    match inner_dependency_inherit_with(&member, "serde-like", &ws, &mut warnings) {
        TomlDependency::Detailed { dep: d } => {
            assert_eq!(d.version, Some("1.2.3".to_string()));
            assert_eq!(d.optional, Some(true));
            assert_eq!(d.features, Some(vec!["extra".to_string()]));
        },
        _ => panic!("member keys should turn the entry into a detailed one"),
    }
    assert!(warnings.is_empty());

    // A detailed workspace entry keeps its fields and appends features.
    let mut ws_detailed = TomlDetailedDependency::empty();
    ws_detailed.version = Some("2.0.0".to_string());
    ws_detailed.features = Some(vec!["base".to_string()]);
    ws_detailed.default_features = Some(true);
    let ignored = TomlInheritedDependency {
        features: Some(vec!["extra".to_string()]),
        optional: None,
        default_features: Some(false),
        public: None,
    };
    let mut warnings2: Vec<String> = Vec::new();
    let ws2 = TomlDependency::Detailed { dep: ws_detailed };
    match inner_dependency_inherit_with(&ignored, "serde-like", &ws2, &mut warnings2) {
        TomlDependency::Detailed { dep: d } => {
            assert_eq!(d.version, Some("2.0.0".to_string()));
            assert_eq!(d.features, Some(vec!["base".to_string(), "extra".to_string()]));
            // The member's `default-features = false` cannot override the
            // workspace's `true`: it is warned about and ignored.
            assert_eq!(d.default_features, Some(true));
        },
        _ => panic!("a detailed workspace entry stays detailed"),
    }
    assert_eq!(warnings2.len(), 1);
    assert!(warnings2[0].contains("`default-features` is ignored"));

    // Inheriting without a workspace entry is an error.
    let mut warnings3: Vec<String> = Vec::new();
    assert!(matches!(
        dependency_inherit_with(&member, "absent", None, &mut warnings3),
        Err(InheritError::NotInWorkspace)
    ));
}

#[test]
fn publishing_drops_patch_table_and_local_components() {
    let mut local = dep();
    local.version = Some("1.0.0".to_string());
    local.path = Some("../bar".to_string());
    local.registry = Some("my-registry".to_string());
    local.features = Some(vec!["extra".to_string()]);
    let mut patched_dep = dep();
    patched_dep.version = Some("1.0.0".to_string());
    patched_dep.patches = Some(vec!["patches/a.patch".to_string()]);
    let m = PublishManifest {
        package: ModelManifest { name: "bar".to_string(), version: "1.0.0".to_string() },
        dependencies: vec![
            ("dep-a".to_string(), TomlDependency::Simple { version: "0.3.1".to_string() }),
            ("dep-b".to_string(), TomlDependency::Detailed { dep: local }),
        ],
        patch: vec![("crates-io".to_string(), patched_dep)],
    };
    let p = prepare_for_publish(&m);
    assert_eq!(p.package.name, "bar");
    assert_eq!(p.package.version, "1.0.0");
    // The patch table is not carried into the published manifest.
    assert!(p.patch.is_empty());
    match &p.dependencies[0].1 {
        TomlDependency::Detailed { dep: d } => {
            assert_eq!(d.version, Some("0.3.1".to_string()));
        },
        _ => panic!("a bare version becomes a detailed entry"),
    }
    match &p.dependencies[1].1 {
        TomlDependency::Detailed { dep: d } => {
            assert_eq!(d.version, Some("1.0.0".to_string()));
            assert!(d.path.is_none());
            assert!(d.registry.is_none());
            assert_eq!(d.registry_index, Some("my-registry".to_string()));
            assert_eq!(d.features, Some(vec!["extra".to_string()]));
            assert!(d.patches.is_none());
        },
        _ => panic!("a detailed entry stays detailed"),
    }
}
