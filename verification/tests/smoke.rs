use gdl::model::version;

#[test]
fn version_returns_package_version() {
    let v = version();
    assert!(!v.is_empty(), "gdl::model::version() must not be empty");
    assert_eq!(v, "0.1.0");
}
