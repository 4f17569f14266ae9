//! Validation of build profiles from a manifest.
//!
//! A profile is checked for syntactic validity and for use of settings that
//! are still behind feature gates; overrides nested inside a profile are
//! checked with the same rules plus the restrictions specific to overrides.

use vstd::prelude::*;

use crate::strutil::str_eq;

verus! {

/// A string-or-boolean manifest value.
pub enum StringOrBool {
    Text { value: String },
    Flag { value: bool },
}

/// One profile as a manifest declares it.
pub struct TomlProfile {
    pub codegen_backend: Option<String>,
    pub rustflags: Option<Vec<String>>,
    pub trim_paths: Option<String>,
    pub dir_name: Option<String>,
    pub inherits: Option<String>,
    pub panic: Option<String>,
    pub lto: Option<StringOrBool>,
    pub rpath: Option<bool>,
    pub build_override: Option<Box<TomlProfile>>,
    pub package: Option<Vec<(String, TomlProfile)>>,
}

/// The feature gates that profile settings may need.
pub struct ProfileGates {
    pub codegen_backend: bool,
    pub profile_rustflags: bool,
    pub trim_paths: bool,
}

/// How a profile declaration is rejected.
#[derive(Debug, PartialEq, Eq, Structural)]
pub enum ProfileError {
    /// `codegen-backend` is used without its feature gate.
    CodegenBackendGate,
    /// A codegen backend name holds a character outside letters, digits and
    /// underscores.
    BadCodegenBackendName,
    /// `rustflags` is used without its feature gate.
    RustflagsGate,
    /// `trim-paths` is used without its feature gate.
    TrimPathsGate,
    /// Package-specific profiles cannot be nested.
    NestedPackageProfile,
    /// Build-override profiles cannot be nested.
    NestedBuildOverride,
    /// `panic` may not be set in an override.
    PanicInOverride,
    /// `lto` may not be set in an override.
    LtoInOverride,
    /// `rpath` may not be set in an override.
    RpathInOverride,
    /// `dir-name` is not allowed.
    DirNameNotAllowed,
    /// `inherits = "debug"` should name the `dev` profile.
    InheritsDebug,
    /// `panic` must be `unwind` or `abort`.
    BadPanicSetting,
    /// `lto` as text must be a boolean literal spelled as a boolean.
    BadLtoSetting,
}

/// Whether a character may stand in a codegen backend name.
pub open spec fn is_backend_char(c: char) -> bool {
    ('a' <= c && c <= 'z') || ('A' <= c && c <= 'Z') || ('0' <= c && c <= '9') || c == '_'
}

/// The shallow checks shared by a profile and its overrides: the gated
/// settings need their gates, and a backend name is plain.
pub open spec fn spec_validate_layer(p: TomlProfile, gates: ProfileGates) -> Result<
    (),
    ProfileError,
> {
    if p.codegen_backend is Some && !gates.codegen_backend {
        Err(ProfileError::CodegenBackendGate)
    } else if p.codegen_backend is Some && exists|i: int|
        0 <= i < p.codegen_backend->Some_0@.len() && !is_backend_char(
            #[trigger] p.codegen_backend->Some_0@[i],
        ) {
        Err(ProfileError::BadCodegenBackendName)
    } else if p.rustflags is Some && !gates.profile_rustflags {
        Err(ProfileError::RustflagsGate)
    } else if p.trim_paths is Some && !gates.trim_paths {
        Err(ProfileError::TrimPathsGate)
    } else {
        Ok(())
    }
}

/// The checks specific to an override: no nesting, and no setting that only
/// a whole profile may carry.
pub open spec fn spec_validate_override(p: TomlProfile) -> Result<(), ProfileError> {
    if p.package is Some {
        Err(ProfileError::NestedPackageProfile)
    } else if p.build_override is Some {
        Err(ProfileError::NestedBuildOverride)
    } else if p.panic is Some {
        Err(ProfileError::PanicInOverride)
    } else if p.lto is Some {
        Err(ProfileError::LtoInOverride)
    } else if p.rpath is Some {
        Err(ProfileError::RpathInOverride)
    } else {
        Ok(())
    }
}

/// The package overrides checked left to right: each is validated as an
/// override and then as a layer; the first failure wins.
pub open spec fn spec_validate_packages(
    pkgs: Seq<(String, TomlProfile)>,
    from: int,
    gates: ProfileGates,
) -> Result<(), ProfileError>
    decreases pkgs.len() - from,
{
    if from < 0 || from >= pkgs.len() {
        Ok(())
    } else {
        match spec_validate_override(pkgs[from].1) {
            Err(e) => Err(e),
            Ok(()) => match spec_validate_layer(pkgs[from].1, gates) {
                Err(e) => Err(e),
                Ok(()) => spec_validate_packages(pkgs, from + 1, gates),
            },
        }
    }
}

/// The build override of a profile checked as an override and as a layer.
pub open spec fn spec_validate_bo(root: TomlProfile, gates: ProfileGates) -> Result<
    (),
    ProfileError,
> {
    match root.build_override {
        Some(p) => {
            match spec_validate_override(*p) {
                Err(e) => Err(e),
                Ok(()) => spec_validate_layer(*p, gates),
            }
        },
        None => Ok(()),
    }
}

/// A whole profile checked: its own layer, its build override, its package
/// overrides, and then the settings with fixed value sets.
pub open spec fn spec_validate_profile(
    root: TomlProfile,
    name: Seq<char>,
    gates: ProfileGates,
) -> Result<(), ProfileError> {
    match spec_validate_layer(root, gates) {
        Err(e) => Err(e),
        Ok(()) => {
            match spec_validate_bo(root, gates) {
                Err(e) => Err(e),
                Ok(()) => {
                    let pk = match root.package {
                        Some(pkgs) => spec_validate_packages(pkgs@, 0, gates),
                        None => Ok(()),
                    };
                    match pk {
                        Err(e) => Err(e),
                        Ok(()) => {
                            if root.dir_name is Some {
                                Err(ProfileError::DirNameNotAllowed)
                            } else if root.inherits is Some && root.inherits->Some_0@
                                == "debug"@ {
                                Err(ProfileError::InheritsDebug)
                            } else if root.panic is Some && root.panic->Some_0@ != "unwind"@
                                && root.panic->Some_0@ != "abort"@ {
                                Err(ProfileError::BadPanicSetting)
                            } else if root.lto matches Some(StringOrBool::Text { value }) && (
                            value@ == "true"@ || value@ == "false"@) {
                                Err(ProfileError::BadLtoSetting)
                            } else {
                                Ok(())
                            }
                        },
                    }
                },
            }
        },
    }
}

/// Whether validation reaches the point where the name-based warnings are
/// issued: every earlier check has passed.
pub open spec fn spec_reaches_warnings(root: TomlProfile, gates: ProfileGates) -> bool {
    &&& spec_validate_layer(root, gates) is Ok
    &&& spec_validate_bo(root, gates) is Ok
    &&& (match root.package {
        Some(pkgs) => spec_validate_packages(pkgs@, 0, gates) is Ok,
        None => true,
    })
    &&& root.dir_name is None
    &&& !(root.inherits is Some && root.inherits->Some_0@ == "debug"@)
}

/// The warnings a profile's name draws: the `doc` profile is deprecated,
/// and a `panic` setting has no effect on the `test` and `bench` profiles.
pub open spec fn spec_profile_warnings(root: TomlProfile, name: Seq<char>) -> Seq<Seq<char>> {
    if name == "doc"@ {
        seq!["profile `doc` is deprecated and has no effect"@]
    } else if (name == "test"@ || name == "bench"@) && root.panic is Some {
        seq!["`panic` setting is ignored for `"@ + name + "` profile"@]
    } else {
        Seq::empty()
    }
}

/// The warnings of a list of profiles checked in order: each profile that
/// gets as far as the name checks contributes its warnings, and the first
/// failing profile ends the run.
pub open spec fn spec_profiles_warnings(
    profiles: Seq<(String, TomlProfile)>,
    from: int,
    gates: ProfileGates,
) -> Seq<Seq<char>>
    decreases profiles.len() - from,
{
    if from < 0 || from >= profiles.len() {
        Seq::empty()
    } else {
        let w = if spec_reaches_warnings(profiles[from].1, gates) {
            spec_profile_warnings(profiles[from].1, profiles[from].0@)
        } else {
            Seq::empty()
        };
        match spec_validate_profile(profiles[from].1, profiles[from].0@, gates) {
            Err(_) => w,
            Ok(()) => w + spec_profiles_warnings(profiles, from + 1, gates),
        }
    }
}

/// Tests whether a character may stand in a codegen backend name.
fn backend_char(c: char) -> (r: bool)
    ensures
        r == is_backend_char(c),
{
    let u = c as u32;
    (97 <= u && u <= 122) || (65 <= u && u <= 90) || (48 <= u && u <= 57) || c == '_'
}

/// Checks the shallow, shared part of a profile.
fn validate_profile_layer(p: &TomlProfile, gates: &ProfileGates) -> (r: Result<(), ProfileError>)
    ensures
        r == spec_validate_layer(*p, *gates),
{
    if let Some(backend) = &p.codegen_backend {
        if !gates.codegen_backend {
            return Err(ProfileError::CodegenBackendGate);
        }
        let len = backend.as_str().unicode_len();
        let mut i: usize = 0;
        while i < len
            invariant
                len == backend@.len(),
                i <= len,
                gates.codegen_backend,
                p.codegen_backend matches Some(b) && b@ == backend@,
                forall|j: int| 0 <= j < i ==> is_backend_char(#[trigger] backend@[j]),
            decreases len - i,
        {
            if !backend_char(backend.as_str().get_char(i)) {
                proof {
                    assert(!is_backend_char(p.codegen_backend->Some_0@[i as int]));
                }
                return Err(ProfileError::BadCodegenBackendName);
            }
            i = i + 1;
        }
    }
    if p.rustflags.is_some() && !gates.profile_rustflags {
        return Err(ProfileError::RustflagsGate);
    }
    if p.trim_paths.is_some() && !gates.trim_paths {
        return Err(ProfileError::TrimPathsGate);
    }
    Ok(())
}

/// Checks the restrictions specific to an override.
fn validate_profile_override(p: &TomlProfile) -> (r: Result<(), ProfileError>)
    ensures
        r == spec_validate_override(*p),
{
    if p.package.is_some() {
        Err(ProfileError::NestedPackageProfile)
    } else if p.build_override.is_some() {
        Err(ProfileError::NestedBuildOverride)
    } else if p.panic.is_some() {
        Err(ProfileError::PanicInOverride)
    } else if p.lto.is_some() {
        Err(ProfileError::LtoInOverride)
    } else if p.rpath.is_some() {
        Err(ProfileError::RpathInOverride)
    } else {
        Ok(())
    }
}

/// Checks syntactic validity and feature gates for one profile, pushing
/// the warnings the profile's name draws once every earlier check passed.
pub fn validate_profile(
    root: &TomlProfile,
    name: &str,
    gates: &ProfileGates,
    warnings: &mut Vec<String>,
) -> (r: Result<(), ProfileError>)
    ensures
        r == spec_validate_profile(*root, name@, *gates),
        spec_reaches_warnings(*root, *gates) ==> final(warnings)@.map_values(|w: String| w@)
            == old(warnings)@.map_values(|w: String| w@) + spec_profile_warnings(*root, name@),
        !spec_reaches_warnings(*root, *gates) ==> *final(warnings) == *old(warnings),
{
    match validate_profile_layer(root, gates) {
        Err(e) => {
            return Err(e);
        },
        Ok(()) => {},
    }
    if let Some(bo) = &root.build_override {
        match validate_profile_override(bo) {
            Err(e) => {
                return Err(e);
            },
            Ok(()) => {},
        }
        match validate_profile_layer(bo, gates) {
            Err(e) => {
                return Err(e);
            },
            Ok(()) => {},
        }
    }
    if let Some(pkgs) = &root.package {
        let mut i: usize = 0;
        while i < pkgs.len()
            invariant
                spec_validate_layer(*root, *gates) is Ok,
                spec_validate_bo(*root, *gates) is Ok,
                root.package matches Some(ps) && ps@ == pkgs@,
                i <= pkgs@.len(),
                spec_validate_packages(pkgs@, 0, *gates) == spec_validate_packages(
                    pkgs@,
                    i as int,
                    *gates,
                ),
            decreases pkgs@.len() - i,
        {
            match validate_profile_override(&pkgs[i].1) {
                Err(e) => {
                    return Err(e);
                },
                Ok(()) => {},
            }
            match validate_profile_layer(&pkgs[i].1, gates) {
                Err(e) => {
                    return Err(e);
                },
                Ok(()) => {},
            }
            i = i + 1;
        }
    }
    if root.dir_name.is_some() {
        return Err(ProfileError::DirNameNotAllowed);
    }
    if let Some(inh) = &root.inherits {
        if str_eq(inh.as_str(), "debug") {
            return Err(ProfileError::InheritsDebug);
        }
    }
    let ghost w_pre = warnings@;
    if str_eq(name, "doc") {
        warnings.push(String::from_str("profile `doc` is deprecated and has no effect"));
        proof {
            assert(warnings@.map_values(|w: String| w@) =~= w_pre.map_values(|w: String| w@)
                + spec_profile_warnings(*root, name@));
        }
    } else if (str_eq(name, "test") || str_eq(name, "bench")) && root.panic.is_some() {
        let mut msg = String::from_str("`panic` setting is ignored for `");
        msg.append(name);
        msg.append("` profile");
        let ghost msgv = msg@;
        warnings.push(msg);
        proof {
            assert(warnings@.map_values(|w: String| w@) =~= w_pre.map_values(|w: String| w@)
                + spec_profile_warnings(*root, name@));
        }
    } else {
        proof {
            assert(warnings@.map_values(|w: String| w@) =~= w_pre.map_values(|w: String| w@)
                + spec_profile_warnings(*root, name@));
        }
    }
    if let Some(panic) = &root.panic {
        if !str_eq(panic.as_str(), "unwind") && !str_eq(panic.as_str(), "abort") {
            return Err(ProfileError::BadPanicSetting);
        }
    }
    if let Some(StringOrBool::Text { value }) = &root.lto {
        if str_eq(value.as_str(), "true") || str_eq(value.as_str(), "false") {
            return Err(ProfileError::BadLtoSetting);
        }
    }
    Ok(())
}

/// Checks every profile of a manifest, in order, collecting the warnings
/// the profiles draw until the first failure.
pub fn validate_profiles(
    profiles: &Vec<(String, TomlProfile)>,
    gates: &ProfileGates,
    warnings: &mut Vec<String>,
) -> (r: Result<(), ProfileError>)
    ensures
        r is Ok ==> forall|i: int|
            0 <= i < profiles@.len() ==> #[trigger] spec_validate_profile(
                profiles@[i].1,
                profiles@[i].0@,
                *gates,
            ) is Ok,
        r matches Err(e) ==> exists|i: int|
            0 <= i < profiles@.len() && #[trigger] spec_validate_profile(
                profiles@[i].1,
                profiles@[i].0@,
                *gates,
            ) == Err::<(), ProfileError>(e),
        final(warnings)@.map_values(|w: String| w@) == old(warnings)@.map_values(|w: String| w@)
            + spec_profiles_warnings(profiles@, 0, *gates),
{
    let mut i: usize = 0;
    while i < profiles.len()
        invariant
            i <= profiles@.len(),
            forall|j: int|
                0 <= j < i ==> #[trigger] spec_validate_profile(
                    profiles@[j].1,
                    profiles@[j].0@,
                    *gates,
                ) is Ok,
            spec_profiles_warnings(profiles@, 0, *gates) == warnings@.map_values(
                |w: String| w@,
            ).skip(old(warnings)@.len() as int) + spec_profiles_warnings(
                profiles@,
                i as int,
                *gates,
            ),
            warnings@.len() >= old(warnings)@.len(),
            forall|j: int|
                0 <= j < old(warnings)@.len() ==> (#[trigger] warnings@[j])@ == old(
                    warnings,
                )@[j]@,
        decreases profiles@.len() - i,
    {
        let ghost w_pre = warnings@;
        let r_i = validate_profile(&profiles[i].1, profiles[i].0.as_str(), gates, warnings);
        proof {
            lemma_profiles_warnings_step(profiles@, i as int, *gates);
            let oldlen = old(warnings)@.len() as int;
            let pre_map = w_pre.map_values(|w: String| w@);
            let new_map = warnings@.map_values(|w: String| w@);
            let w = if spec_reaches_warnings(profiles@[i as int].1, *gates) {
                spec_profile_warnings(profiles@[i as int].1, profiles@[i as int].0@)
            } else {
                Seq::<Seq<char>>::empty()
            };
            if spec_reaches_warnings(profiles@[i as int].1, *gates) {
                assert(new_map =~= pre_map + w);
            } else {
                assert(new_map =~= pre_map + w);
            }
            assert(new_map.skip(oldlen) =~= pre_map.skip(oldlen) + w);
            if r_i is Ok {
                assert(spec_profiles_warnings(profiles@, i as int, *gates) == w
                    + spec_profiles_warnings(profiles@, i + 1, *gates));
                assert(pre_map.skip(oldlen) + (w + spec_profiles_warnings(
                    profiles@,
                    i + 1,
                    *gates,
                )) =~= new_map.skip(oldlen) + spec_profiles_warnings(profiles@, i + 1, *gates));
            } else {
                assert(spec_profiles_warnings(profiles@, i as int, *gates) == w);
                assert(pre_map.skip(oldlen) + spec_profiles_warnings(profiles@, i as int, *gates)
                    =~= new_map.skip(oldlen));
                assert(new_map =~= old(warnings)@.map_values(|x: String| x@) + new_map.skip(
                    oldlen,
                ));
            }
            assert forall|j: int| 0 <= j < old(warnings)@.len() implies (#[trigger] warnings@[j])@
                == old(warnings)@[j]@ by {
                assert((warnings@[j])@ == new_map[j]);
                assert((w_pre[j])@ == pre_map[j]);
            }
        }
        match r_i {
            Err(e) => {
                return Err(e);
            },
            Ok(()) => {},
        }
        i = i + 1;
    }
    proof {
        assert(spec_profiles_warnings(profiles@, profiles@.len() as int, *gates)
            =~= Seq::<Seq<char>>::empty());
        assert(warnings@.map_values(|w: String| w@) =~= old(warnings)@.map_values(|w: String| w@)
            + warnings@.map_values(|w: String| w@).skip(old(warnings)@.len() as int));
    }
    Ok(())
}

/// Taking one more profile appends its warnings, or ends the run on its
/// failure.
proof fn lemma_profiles_warnings_step(
    profiles: Seq<(String, TomlProfile)>,
    i: int,
    gates: ProfileGates,
)
    requires
        0 <= i < profiles.len(),
    ensures
        ({
            let w = if spec_reaches_warnings(profiles[i].1, gates) {
                spec_profile_warnings(profiles[i].1, profiles[i].0@)
            } else {
                Seq::empty()
            };
            &&& (spec_validate_profile(profiles[i].1, profiles[i].0@, gates) is Ok
                ==> spec_profiles_warnings(profiles, i, gates) == w + spec_profiles_warnings(
                profiles,
                i + 1,
                gates,
            ))
            &&& (!(spec_validate_profile(profiles[i].1, profiles[i].0@, gates) is Ok)
                ==> spec_profiles_warnings(profiles, i, gates) == w)
        }),
{
}

} // verus!
