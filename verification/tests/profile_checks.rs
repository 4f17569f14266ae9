//! Tests of profile validation and the lint table checks.

use patched_src::fstree::FsTree;
use patched_src::manifest::{
    default_readme_from_package_root, field_inherit_with, lints_inherit_with,
    normalize_path_string_sep, resolve_package_readme, unique_build_targets, verify_lints,
    warn_on_deprecated, warn_on_unused, BuildTarget, InheritError, InheritableLints,
    InheritableString, LintError,
};
use patched_src::profiles::{
    validate_profile, validate_profiles, ProfileError, ProfileGates, StringOrBool, TomlProfile,
};

fn profile() -> TomlProfile {
    TomlProfile {
        codegen_backend: None,
        rustflags: None,
        trim_paths: None,
        dir_name: None,
        inherits: None,
        panic: None,
        lto: None,
        rpath: None,
        build_override: None,
        package: None,
    }
}

fn no_gates() -> ProfileGates {
    ProfileGates { codegen_backend: false, profile_rustflags: false, trim_paths: false }
}

fn all_gates() -> ProfileGates {
    ProfileGates { codegen_backend: true, profile_rustflags: true, trim_paths: true }
}

#[test]
fn plain_profile_is_accepted() {
    let mut p = profile();
    p.panic = Some("abort".to_string());
    p.lto = Some(StringOrBool::Text { value: "thin".to_string() });
    assert_eq!(validate_profile(&p, "release", &no_gates(), &mut Vec::new()), Ok(()));
}

#[test]
fn gated_settings_need_their_gates() {
    let mut p = profile();
    p.codegen_backend = Some("cranelift".to_string());
    assert_eq!(validate_profile(&p, "dev", &no_gates(), &mut Vec::new()), Err(ProfileError::CodegenBackendGate));
    assert_eq!(validate_profile(&p, "dev", &all_gates(), &mut Vec::new()), Ok(()));

    p.codegen_backend = Some("crane-lift".to_string());
    assert_eq!(
        validate_profile(&p, "dev", &all_gates(), &mut Vec::new()),
        Err(ProfileError::BadCodegenBackendName)
    );

    let mut q = profile();
    q.rustflags = Some(vec!["-Cpanic=abort".to_string()]);
    assert_eq!(validate_profile(&q, "dev", &no_gates(), &mut Vec::new()), Err(ProfileError::RustflagsGate));

    let mut t = profile();
    t.trim_paths = Some("all".to_string());
    assert_eq!(validate_profile(&t, "dev", &no_gates(), &mut Vec::new()), Err(ProfileError::TrimPathsGate));
}

#[test]
fn override_restrictions() {
    let mut inner = profile();
    inner.panic = Some("abort".to_string());
    let mut p = profile();
    p.build_override = Some(Box::new(inner));
    assert_eq!(validate_profile(&p, "dev", &no_gates(), &mut Vec::new()), Err(ProfileError::PanicInOverride));

    let mut nested = profile();
    nested.build_override = Some(Box::new(profile()));
    let mut q = profile();
    q.package = Some(vec![("bar".to_string(), nested)]);
    assert_eq!(validate_profile(&q, "dev", &no_gates(), &mut Vec::new()), Err(ProfileError::NestedBuildOverride));
}

#[test]
fn fixed_value_settings() {
    let mut p = profile();
    p.dir_name = Some("elsewhere".to_string());
    assert_eq!(validate_profile(&p, "dev", &no_gates(), &mut Vec::new()), Err(ProfileError::DirNameNotAllowed));

    let mut q = profile();
    q.inherits = Some("debug".to_string());
    assert_eq!(validate_profile(&q, "custom", &no_gates(), &mut Vec::new()), Err(ProfileError::InheritsDebug));

    let mut r = profile();
    r.panic = Some("explode".to_string());
    assert_eq!(validate_profile(&r, "dev", &no_gates(), &mut Vec::new()), Err(ProfileError::BadPanicSetting));

    let mut s = profile();
    s.lto = Some(StringOrBool::Text { value: "true".to_string() });
    assert_eq!(validate_profile(&s, "dev", &no_gates(), &mut Vec::new()), Err(ProfileError::BadLtoSetting));
    s.lto = Some(StringOrBool::Flag { value: true });
    assert_eq!(validate_profile(&s, "dev", &no_gates(), &mut Vec::new()), Ok(()));

    let all = vec![("dev".to_string(), profile()), ("bad".to_string(), r)];
    assert_eq!(validate_profiles(&all, &no_gates(), &mut Vec::new()), Err(ProfileError::BadPanicSetting));
}

#[test]
fn name_based_profile_warnings() {
    let mut warnings: Vec<String> = Vec::new();
    assert_eq!(validate_profile(&profile(), "doc", &no_gates(), &mut warnings), Ok(()));
    assert_eq!(warnings, vec!["profile `doc` is deprecated and has no effect".to_string()]);

    let mut p = profile();
    p.panic = Some("abort".to_string());
    let mut warnings2: Vec<String> = Vec::new();
    assert_eq!(validate_profile(&p, "test", &no_gates(), &mut warnings2), Ok(()));
    assert_eq!(
        warnings2,
        vec!["`panic` setting is ignored for `test` profile".to_string()]
    );

    // A profile that fails an earlier check pushes no warning.
    let mut q = profile();
    q.dir_name = Some("elsewhere".to_string());
    let mut warnings3: Vec<String> = Vec::new();
    assert_eq!(
        validate_profile(&q, "doc", &no_gates(), &mut warnings3),
        Err(ProfileError::DirNameNotAllowed)
    );
    assert!(warnings3.is_empty());
}

#[test]
fn lint_tables() {
    let ok = vec![
        ("rust".to_string(), vec!["unused".to_string()]),
        ("clippy".to_string(), vec!["dbg_macro".to_string()]),
    ];
    assert_eq!(verify_lints(&ok), Ok(()));

    let bad_tool = vec![("shellcheck".to_string(), vec!["quoting".to_string()])];
    assert_eq!(verify_lints(&bad_tool), Err(LintError::UnsupportedTool));

    let qualified = vec![("rust".to_string(), vec!["clippy::dbg_macro".to_string()])];
    assert_eq!(verify_lints(&qualified), Err(LintError::QualifiedLintName));
}

#[test]
fn path_separator_normalization() {
    assert_eq!(normalize_path_string_sep("a\\b\\c.rs"), "a/b/c.rs");
    assert_eq!(normalize_path_string_sep("already/fine"), "already/fine");
    assert_eq!(normalize_path_string_sep(""), "");
}

#[test]
fn workspace_inheritance_helpers() {
    let own = InheritableString::Value { value: "MIT".to_string() };
    assert_eq!(field_inherit_with(&own, None), Ok("MIT".to_string()));

    let inherited = InheritableString::Inherit;
    let ws = "Apache-2.0".to_string();
    assert_eq!(field_inherit_with(&inherited, Some(&ws)), Ok("Apache-2.0".to_string()));
    assert_eq!(field_inherit_with(&inherited, None), Err(InheritError::NotInWorkspace));

    let ws_lints = vec!["unused".to_string()];
    let from_ws = InheritableLints { workspace: true, lints: Vec::new() };
    assert_eq!(lints_inherit_with(&from_ws, Some(&ws_lints)), Ok(ws_lints.clone()));
    assert_eq!(lints_inherit_with(&from_ws, None), Err(InheritError::NotInWorkspace));

    let conflicting = InheritableLints { workspace: true, lints: vec!["dead_code".to_string()] };
    assert_eq!(
        lints_inherit_with(&conflicting, Some(&ws_lints)),
        Err(InheritError::OverrideConflict)
    );

    let own_lints = InheritableLints { workspace: false, lints: vec!["dead_code".to_string()] };
    assert_eq!(lints_inherit_with(&own_lints, None), Ok(vec!["dead_code".to_string()]));
}

#[test]
fn readme_resolution_and_target_uniqueness() {
    let mut fs = FsTree::new();
    fs.write("/pkg/README.txt", "hello\n");
    assert_eq!(default_readme_from_package_root(&fs, "/pkg"), Some("README.txt".to_string()));
    assert_eq!(resolve_package_readme(&fs, "/pkg", None), Some("README.txt".to_string()));
    assert_eq!(
        resolve_package_readme(&fs, "/pkg", Some(&StringOrBool::Flag { value: false })),
        None
    );
    assert_eq!(
        resolve_package_readme(&fs, "/pkg", Some(&StringOrBool::Text { value: "NOTES.md".to_string() })),
        Some("NOTES.md".to_string())
    );
    assert_eq!(default_readme_from_package_root(&fs, "/empty"), None);

    let distinct = vec![
        BuildTarget { name: "lib".to_string(), src_path: "src/lib.rs".to_string() },
        BuildTarget { name: "cli".to_string(), src_path: "src/main.rs".to_string() },
    ];
    assert!(unique_build_targets(&distinct, "/pkg").is_ok());

    let clashing = vec![
        BuildTarget { name: "lib".to_string(), src_path: "src/lib.rs".to_string() },
        BuildTarget { name: "other".to_string(), src_path: "src/lib.rs".to_string() },
    ];
    assert_eq!(unique_build_targets(&clashing, "/pkg"), Err("/pkg/src/lib.rs".to_string()));
}

#[test]
fn deprecated_and_unused_key_warnings() {
    let mut warnings: Vec<String> = Vec::new();
    warn_on_deprecated("default-features", "bar", "dependency", &mut warnings);
    assert_eq!(warnings.len(), 1);
    assert!(warnings[0].contains("`default-features`"));
    assert!(warnings[0].contains("`default_features`"));

    let mut more: Vec<String> = Vec::new();
    warn_on_unused(&vec!["profiles.debug".to_string()], &mut more);
    assert_eq!(more[0], "unused manifest key: profiles.debug");
    assert_eq!(more[1], "use `[profile.dev]` to configure debug builds");
}
