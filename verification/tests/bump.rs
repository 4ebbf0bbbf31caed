use composer_version::ComposerVersion;

#[test]
fn test_minor_bump() {
    let mut version = ComposerVersion::new("v1.0.1");
    version.bump_minor();
    assert_eq!("1.1.0", version.to_string());
}

#[test]
fn test_patch_bump() {
    let mut version = ComposerVersion::new("v1.0.1");
    version.bump_patch();
    assert_eq!("1.0.2", version.to_string());
}

#[test]
fn test_major_bump() {
    let mut version = ComposerVersion::new("v1.13.1");
    version.bump_major();
    assert_eq!("2.0.0", version.to_string());
}
