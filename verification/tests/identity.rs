//! Tests of source identity: URL round trips, patched-identifier
//! construction, and the stable short hash.

use patched_src::errors::Error;
use patched_src::ids::{id_eq, make_patched, SourceId};

const CKSUM: &str = "0123456789abcdef0123456789abcdef0123456789abcdef0123456789abcdef";

fn registry_id() -> SourceId {
    SourceId::Registry { url: "https://github.com/rust-lang/crates.io-index".to_string() }
}

fn git_id() -> SourceId {
    SourceId::Git {
        url: "https://example.com/repo.git".to_string(),
        precise: Some("0f1e2d3c".to_string()),
    }
}

#[test]
fn registry_url_round_trip() {
    let id = registry_id();
    let url = id.to_url();
    assert_eq!(url, "registry+https://github.com/rust-lang/crates.io-index");
    let back = SourceId::from_url(&url).unwrap();
    assert!(id_eq(&back, &id));
}

#[test]
fn git_url_round_trip() {
    let id = git_id();
    let url = id.to_url();
    assert_eq!(url, "git+https://example.com/repo.git#0f1e2d3c");
    let back = SourceId::from_url(&url).unwrap();
    assert!(id_eq(&back, &id));

    let bare = SourceId::Git { url: "https://example.com/repo.git".to_string(), precise: None };
    let back2 = SourceId::from_url(&bare.to_url()).unwrap();
    assert!(id_eq(&back2, &bare));
}

#[test]
fn path_url_round_trip() {
    let id = SourceId::Path { url: "file:///home/user/dep".to_string() };
    let url = id.to_url();
    assert_eq!(url, "path+file:///home/user/dep");
    let back = SourceId::from_url(&url).unwrap();
    assert!(id_eq(&back, &id));
}

#[test]
fn patched_url_round_trip() {
    let id = make_patched(&registry_id(), CKSUM).unwrap();
    let url = id.to_url();
    assert_eq!(
        url,
        format!(
            "patched+registry+https://github.com/rust-lang/crates.io-index?patch-cksum={CKSUM}"
        ),
    );
    let back = SourceId::from_url(&url).unwrap();
    assert!(id_eq(&back, &id));

    let git = make_patched(&git_id(), CKSUM).unwrap();
    let back2 = SourceId::from_url(&git.to_url()).unwrap();
    assert!(id_eq(&back2, &git));
}

#[test]
fn patched_url_preserves_inner_query() {
    let inner = SourceId::Registry { url: "sparse+https://example.com/index?auth=yes".to_string() };
    let id = make_patched(&inner, CKSUM).unwrap();
    let url = id.to_url();
    assert_eq!(
        url,
        format!("patched+registry+sparse+https://example.com/index?auth=yes&patch-cksum={CKSUM}"),
    );
    let back = SourceId::from_url(&url).unwrap();
    assert!(id_eq(&back, &id));
}

#[test]
fn make_patched_strips_reserved_parameter() {
    let inner = SourceId::Registry {
        url: format!("https://example.com/index?patch-cksum={CKSUM}&auth=yes"),
    };
    let id = make_patched(&inner, CKSUM).unwrap();
    let inner_again = id.inner_id();
    assert_eq!(inner_again.to_url(), "registry+https://example.com/index?auth=yes");
}

#[test]
fn make_patched_rejects_path_and_patched_inner() {
    let path = SourceId::Path { url: "file:///dep".to_string() };
    assert!(matches!(make_patched(&path, CKSUM), Err(Error::PatchPathDep)));

    let once = make_patched(&registry_id(), CKSUM).unwrap();
    assert!(matches!(make_patched(&once, CKSUM), Err(Error::NestedPatch)));
}

#[test]
fn from_url_rejects_unknown_grammar() {
    assert!(matches!(
        SourceId::from_url("ftp://example.com"),
        Err(Error::InvalidUrl { .. })
    ));
    assert!(matches!(
        SourceId::from_url("patched+registry+https://e.com?patch-cksum=tooshort"),
        Err(Error::InvalidUrl { .. })
    ));
}

#[test]
fn patched_identifier_equality_follows_inner_and_cksum() {
    let other_cksum = "ffffffffffffffffffffffffffffffffffffffffffffffffffffffffffffffff";
    let a = make_patched(&registry_id(), CKSUM).unwrap();
    let b = make_patched(&registry_id(), CKSUM).unwrap();
    let c = make_patched(&registry_id(), other_cksum).unwrap();
    let d = make_patched(&git_id(), CKSUM).unwrap();
    assert!(id_eq(&a, &b));
    assert!(!id_eq(&a, &c));
    assert!(!id_eq(&a, &d));
}

#[test]
fn short_hash_is_stable_and_sixteen_hex() {
    let id = registry_id();
    let h1 = id.short_hash();
    let h2 = registry_id().short_hash();
    assert_eq!(h1, h2);
    assert_eq!(h1.len(), 16);
    assert!(h1.chars().all(|c| c.is_ascii_hexdigit()));
    // A different identifier hashes differently.
    assert_ne!(h1, git_id().short_hash());
}
